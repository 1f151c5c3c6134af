//! Section-assignment ranges: pairs of inclusive integer ranges read from
//! lines of the form `a-b,c-d`, with containment and overlap tests.

use vstd::prelude::*;
use crate::digits::{is_u64_string, dec_value};
use crate::scan::{token_end, find_char, lemma_token_end_bounds};

verus! {

#[derive(Clone, Copy, Debug, PartialEq, Eq, Structural)]
pub struct SectionRange {
    pub start_id: u64,
    pub end_id: u64,
}

/// `a` lies entirely within `b`; both are (start, end) pairs.
pub open spec fn spec_contained(a: (int, int), b: (int, int)) -> bool {
    a.0 >= b.0 && a.1 <= b.1
}

/// `a` and `b` share at least one point, written as the case split the
/// containment tests use: `a` starts inside `b`, ends inside `b`, or covers it.
pub open spec fn spec_intersects(a: (int, int), b: (int, int)) -> bool {
    ||| (a.0 >= b.0 && a.0 <= b.1)
    ||| (a.1 >= b.0 && a.1 <= b.1)
    ||| (a.0 <= b.0 && a.1 >= b.1)
}

/// The range denoted by text of the form `<digits>-<digits>`: `None` when
/// there is no `-`, either side is not a `u64` digit string, or the start
/// exceeds the end.
pub open spec fn spec_range(s: Seq<char>) -> Option<(int, int)> {
    let d = token_end(s, '-', 0);
    if d == s.len() {
        None
    } else {
        let left = s.take(d);
        let right = s.skip(d + 1);
        if is_u64_string(left) && is_u64_string(right) && dec_value(left) <= dec_value(right) {
            Some((dec_value(left), dec_value(right)))
        } else {
            None
        }
    }
}

/// The two ranges denoted by a line `<range>,<range>`: the first two
/// comma-separated fields must each denote a range; later fields are ignored.
pub open spec fn spec_pair(s: Seq<char>) -> Option<((int, int), (int, int))> {
    let c = token_end(s, ',', 0);
    if c == s.len() {
        None
    } else {
        let second_end = token_end(s, ',', c + 1);
        match (spec_range(s.take(c)), spec_range(s.subrange(c + 1, second_end))) {
            (Some(a), Some(b)) => Some((a, b)),
            _ => None,
        }
    }
}

impl SectionRange {
    pub open spec fn view(self) -> (int, int) {
        (self.start_id as int, self.end_id as int)
    }

    /// The range is entirely within `other`.
    pub fn is_fully_contained_in(&self, other: &SectionRange) -> (r: bool)
        ensures
            r == spec_contained(self@, other@),
    {
        self.start_id >= other.start_id && self.end_id <= other.end_id
    }

    /// The range shares at least one section with `other`.
    pub fn intersect_with(&self, other: &SectionRange) -> (r: bool)
        ensures
            r == spec_intersects(self@, other@),
            self.start_id <= self.end_id && other.start_id <= other.end_id
                ==> r == (self.start_id <= other.end_id && other.start_id <= self.end_id),
    {
        (self.start_id >= other.start_id && self.start_id <= other.end_id)
            || (self.end_id >= other.start_id && self.end_id <= other.end_id)
            || (self.start_id <= other.start_id && self.end_id >= other.end_id)
    }

    /// Reads a range from text of the form `<start>-<end>`.
    pub fn parse(s: &str) -> (r: Option<SectionRange>)
        ensures
            match r {
                Some(rg) => spec_range(s@) == Some(rg@) && rg.start_id <= rg.end_id,
                None => spec_range(s@) is None,
            },
    {
        let n = s.unicode_len();
        let d = find_char(s, '-', 0);
        proof {
            lemma_token_end_bounds(s@, '-', 0);
        }
        if d == n {
            return None;
        }
        let left = s.substring_char(0, d);
        let right = s.substring_char(d + 1, n);
        assert(left@ =~= s@.take(d as int));
        assert(right@ =~= s@.skip(d as int + 1));
        let start_id = match crate::digits::parse_u64(left) {
            Some(v) => v,
            None => {
                return None;
            },
        };
        let end_id = match crate::digits::parse_u64(right) {
            Some(v) => v,
            None => {
                return None;
            },
        };
        if start_id <= end_id {
            Some(SectionRange { start_id, end_id })
        } else {
            None
        }
    }
}

/// One of the line's two ranges lies entirely within the other.
pub fn contains_fully_contained_range(line: &str) -> (r: bool)
    requires
        spec_pair(line@) is Some,
    ensures
        ({
            let (a, b) = spec_pair(line@)->Some_0;
            r == (spec_contained(a, b) || spec_contained(b, a))
        }),
{
    let (range1, range2) = parse_pair(line);
    range1.is_fully_contained_in(&range2) || range2.is_fully_contained_in(&range1)
}

/// The line's two ranges share at least one section.
pub fn contains_intersection(line: &str) -> (r: bool)
    requires
        spec_pair(line@) is Some,
    ensures
        ({
            let (a, b) = spec_pair(line@)->Some_0;
            r == spec_intersects(a, b)
        }),
{
    let (range1, range2) = parse_pair(line);
    range1.intersect_with(&range2)
}

/// Splits a line at its first two commas and reads a range from each field.
fn parse_pair(line: &str) -> (r: (SectionRange, SectionRange))
    requires
        spec_pair(line@) is Some,
    ensures
        spec_pair(line@) == Some((r.0@, r.1@)),
{
    let n = line.unicode_len();
    let c = find_char(line, ',', 0);
    proof {
        lemma_token_end_bounds(line@, ',', 0);
    }
    let second_end = find_char(line, ',', c + 1);
    proof {
        lemma_token_end_bounds(line@, ',', c as int + 1);
    }
    let first = line.substring_char(0, c);
    let second = line.substring_char(c + 1, second_end);
    assert(first@ =~= line@.take(c as int));
    assert(second@ =~= line@.subrange(c as int + 1, second_end as int));
    let range1 = SectionRange::parse(first).unwrap();
    let range2 = SectionRange::parse(second).unwrap();
    (range1, range2)
}

/// Every line denotes a pair of ranges.
pub open spec fn pair_lines_ok(lines: Seq<Seq<char>>) -> bool {
    forall|i: int| 0 <= i < lines.len() ==> spec_pair(#[trigger] lines[i]) is Some
}

/// How many of lines `0..n` hold a pair with one range inside the other.
pub open spec fn spec_count_contained(lines: Seq<Seq<char>>, n: int) -> int
    decreases n,
{
    if n <= 0 {
        0
    } else {
        spec_count_contained(lines, n - 1) + match spec_pair(lines[n - 1]) {
            Some(p) => if spec_contained(p.0, p.1) || spec_contained(p.1, p.0) {
                1int
            } else {
                0int
            },
            None => 0int,
        }
    }
}

/// How many of lines `0..n` hold a pair of overlapping ranges.
pub open spec fn spec_count_intersecting(lines: Seq<Seq<char>>, n: int) -> int
    decreases n,
{
    if n <= 0 {
        0
    } else {
        spec_count_intersecting(lines, n - 1) + match spec_pair(lines[n - 1]) {
            Some(p) => if spec_intersects(p.0, p.1) {
                1int
            } else {
                0int
            },
            None => 0int,
        }
    }
}

proof fn lemma_count_contained_bounds(lines: Seq<Seq<char>>, n: int)
    requires
        0 <= n,
    ensures
        0 <= spec_count_contained(lines, n) <= n,
    decreases n,
{
    if n > 0 {
        lemma_count_contained_bounds(lines, n - 1);
    }
}

proof fn lemma_count_intersecting_bounds(lines: Seq<Seq<char>>, n: int)
    requires
        0 <= n,
    ensures
        0 <= spec_count_intersecting(lines, n) <= n,
    decreases n,
{
    if n > 0 {
        lemma_count_intersecting_bounds(lines, n - 1);
    }
}

/// Counts the lines whose pair has one range fully inside the other.
pub fn count_fully_contained(lines: &Vec<String>) -> (r: usize)
    requires
        pair_lines_ok(lines.deep_view()),
    ensures
        r == spec_count_contained(lines.deep_view(), lines@.len() as int),
{
    let ghost ldv = lines.deep_view();
    let mut count: usize = 0;
    let mut i: usize = 0;
    while i < lines.len()
        invariant
            0 <= i <= lines@.len(),
            ldv == lines.deep_view(),
            ldv.len() == lines@.len(),
            pair_lines_ok(ldv),
            count == spec_count_contained(ldv, i as int),
            forall|q: int| 0 <= q < ldv.len() ==> #[trigger] ldv[q] == lines@[q]@,
        decreases lines@.len() - i,
    {
        proof {
            lemma_count_contained_bounds(ldv, i as int);
            assert(spec_pair(ldv[i as int]) is Some);
        }
        if contains_fully_contained_range(lines[i].as_str()) {
            count = count + 1;
        }
        i = i + 1;
    }
    count
}

/// Counts the lines whose pair of ranges overlaps.
pub fn count_intersections(lines: &Vec<String>) -> (r: usize)
    requires
        pair_lines_ok(lines.deep_view()),
    ensures
        r == spec_count_intersecting(lines.deep_view(), lines@.len() as int),
{
    let ghost ldv = lines.deep_view();
    let mut count: usize = 0;
    let mut i: usize = 0;
    while i < lines.len()
        invariant
            0 <= i <= lines@.len(),
            ldv == lines.deep_view(),
            ldv.len() == lines@.len(),
            pair_lines_ok(ldv),
            count == spec_count_intersecting(ldv, i as int),
            forall|q: int| 0 <= q < ldv.len() ==> #[trigger] ldv[q] == lines@[q]@,
        decreases lines@.len() - i,
    {
        proof {
            lemma_count_intersecting_bounds(ldv, i as int);
            assert(spec_pair(ldv[i as int]) is Some);
        }
        if contains_intersection(lines[i].as_str()) {
            count = count + 1;
        }
        i = i + 1;
    }
    count
}

} // verus!

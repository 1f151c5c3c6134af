//! Rucksack items: the item packed into both compartments of one rucksack,
//! the badge item common to a group of three, and item priorities.

use vstd::prelude::*;

verus! {

/// The first character of `cands` (in order) that also occurs in `pool`.
pub open spec fn spec_first_common(cands: Seq<char>, pool: Seq<char>) -> Option<char>
    decreases cands.len(),
{
    if cands.len() == 0 {
        None
    } else if pool.contains(cands[0]) {
        Some(cands[0])
    } else {
        spec_first_common(cands.skip(1), pool)
    }
}

/// The item that was packed into both halves of the rucksack: the first item
/// of the second compartment that also lies in the first.
pub open spec fn spec_wrong_item(content: Seq<char>) -> Option<char> {
    let half = content.len() as int / 2;
    spec_first_common(content.skip(half), content.take(half))
}

/// The first item of the first rucksack that lies in both of the others.
pub open spec fn spec_common_item(a: Seq<char>, b: Seq<char>, c: Seq<char>) -> Option<char>
    decreases a.len(),
{
    if a.len() == 0 {
        None
    } else if b.contains(a[0]) && c.contains(a[0]) {
        Some(a[0])
    } else {
        spec_common_item(a.skip(1), b, c)
    }
}

/// An item letter: lower case or upper case.
pub open spec fn is_item(c: char) -> bool {
    ('a' <= c && c <= 'z') || ('A' <= c && c <= 'Z')
}

/// The priority of an item: `a`..`z` score 1 to 26, `A`..`Z` score 27 to 52.
pub open spec fn spec_priority(c: char) -> int {
    if 'a' <= c && c <= 'z' {
        c as int - 96
    } else {
        c as int - 38
    }
}

/// `s` holds `c` somewhere.
fn str_contains_char(s: &str, c: char) -> (r: bool)
    ensures
        r == s@.contains(c),
{
    let n = s.unicode_len();
    let mut i: usize = 0;
    while i < n
        invariant
            0 <= i <= n,
            n == s@.len(),
            forall|j: int| 0 <= j < i ==> s@[j] != c,
        decreases n - i,
    {
        if s.get_char(i) == c {
            return true;
        }
        i = i + 1;
    }
    false
}

/// Finds the item packed into both compartments: the halves of the line are
/// the compartments, and the first item of the second half that also lies in
/// the first half is returned.
pub fn find_wrong_packed_item(content: &str) -> (r: char)
    requires
        spec_wrong_item(content@) is Some,
    ensures
        Some(r) == spec_wrong_item(content@),
{
    let n = content.unicode_len();
    let half = n / 2;
    let first = content.substring_char(0, half);
    let second = content.substring_char(half, n);
    assert(first@ =~= content@.take(half as int));
    assert(second@ =~= content@.skip(half as int));
    let m = n - half;
    let mut i: usize = 0;
    proof {
        assert(second@.skip(0) =~= second@);
    }
    while i < m
        invariant
            0 <= i <= m,
            m == second@.len(),
            first@ == content@.take(content@.len() as int / 2),
            second@ == content@.skip(content@.len() as int / 2),
            spec_wrong_item(content@) == spec_first_common(second@.skip(i as int), first@),
            spec_wrong_item(content@) is Some,
        decreases m - i,
    {
        let c = second.get_char(i);
        assert(second@.skip(i as int)[0] == c);
        if str_contains_char(first, c) {
            return c;
        }
        assert(second@.skip(i as int).skip(1) =~= second@.skip(i as int + 1));
        i = i + 1;
    }
    proof {
        assert(second@.skip(m as int).len() == 0);
        assert(false);
    }
    unreached()
}

/// Finds the badge item of a group of three rucksacks: the first item of the
/// first rucksack that the other two also carry.
pub fn find_common_item(contents: &[&str; 3]) -> (r: char)
    requires
        spec_common_item(contents[0]@, contents[1]@, contents[2]@) is Some,
    ensures
        Some(r) == spec_common_item(contents[0]@, contents[1]@, contents[2]@),
{
    let a: &str = contents[0];
    let b: &str = contents[1];
    let c: &str = contents[2];
    let n = a.unicode_len();
    let mut i: usize = 0;
    proof {
        assert(a@.skip(0) =~= a@);
    }
    while i < n
        invariant
            0 <= i <= n,
            n == a@.len(),
            a@ == contents[0]@,
            b@ == contents[1]@,
            c@ == contents[2]@,
            spec_common_item(contents[0]@, contents[1]@, contents[2]@) == spec_common_item(
                a@.skip(i as int),
                b@,
                c@,
            ),
            spec_common_item(contents[0]@, contents[1]@, contents[2]@) is Some,
        decreases n - i,
    {
        let item = a.get_char(i);
        assert(a@.skip(i as int)[0] == item);
        if str_contains_char(b, item) && str_contains_char(c, item) {
            return item;
        }
        assert(a@.skip(i as int).skip(1) =~= a@.skip(i as int + 1));
        i = i + 1;
    }
    proof {
        assert(a@.skip(n as int).len() == 0);
        assert(false);
    }
    unreached()
}

/// The priority of one item letter.
pub fn get_item_priority(item: char) -> (r: u32)
    requires
        is_item(item),
    ensures
        r == spec_priority(item),
{
    let code = item as u32;
    if code >= 97 {
        code - 96
    } else {
        code - 38
    }
}

/// The summed priorities of the wrongly packed items of lines `0..n`.
pub open spec fn spec_total_priority(lines: Seq<Seq<char>>, n: int) -> int
    decreases n,
{
    if n <= 0 {
        0
    } else {
        spec_total_priority(lines, n - 1) + spec_priority(spec_wrong_item(lines[n - 1])->Some_0)
    }
}

/// Every line has a wrongly packed item, and it is an item letter.
pub open spec fn priority_lines_ok(lines: Seq<Seq<char>>) -> bool {
    forall|i: int|
        0 <= i < lines.len() ==> (spec_wrong_item(#[trigger] lines[i]) matches Some(c) && is_item(
            c,
        ))
}

proof fn lemma_total_priority_bounds(lines: Seq<Seq<char>>, a: int, b: int)
    requires
        0 <= a <= b <= lines.len(),
        priority_lines_ok(lines),
    ensures
        spec_total_priority(lines, a) <= spec_total_priority(lines, b),
        spec_total_priority(lines, a) >= 0,
    decreases b - a + a,
{
    if a < b {
        lemma_total_priority_bounds(lines, a, b - 1);
        assert(spec_priority(spec_wrong_item(lines[b - 1])->Some_0) >= 0);
    } else if a > 0 {
        lemma_total_priority_bounds(lines, a - 1, a - 1);
    }
}

/// Sums the priorities of every line's wrongly packed item.
pub fn total_priority(lines: &Vec<String>) -> (r: u32)
    requires
        priority_lines_ok(lines.deep_view()),
        spec_total_priority(lines.deep_view(), lines@.len() as int) <= u32::MAX,
    ensures
        r == spec_total_priority(lines.deep_view(), lines@.len() as int),
{
    let ghost ldv = lines.deep_view();
    let mut sum: u32 = 0;
    let mut i: usize = 0;
    while i < lines.len()
        invariant
            0 <= i <= lines@.len(),
            ldv == lines.deep_view(),
            ldv.len() == lines@.len(),
            priority_lines_ok(ldv),
            spec_total_priority(ldv, ldv.len() as int) <= u32::MAX,
            sum == spec_total_priority(ldv, i as int),
            forall|q: int| 0 <= q < ldv.len() ==> #[trigger] ldv[q] == lines@[q]@,
        decreases lines@.len() - i,
    {
        proof {
            lemma_total_priority_bounds(ldv, i as int + 1, ldv.len() as int);
        }
        let item = find_wrong_packed_item(lines[i].as_str());
        let p = get_item_priority(item);
        sum = sum + p;
        i = i + 1;
    }
    sum
}

/// The summed priorities of the badges of groups `0..g` (each of 3 lines).
pub open spec fn spec_total_badge_priority(lines: Seq<Seq<char>>, g: int) -> int
    decreases g,
{
    if g <= 0 {
        0
    } else {
        spec_total_badge_priority(lines, g - 1) + spec_priority(
            spec_common_item(lines[3 * g - 3], lines[3 * g - 2], lines[3 * g - 1])->Some_0,
        )
    }
}

/// The lines fall into groups of three, each with an item-letter badge.
pub open spec fn badge_lines_ok(lines: Seq<Seq<char>>) -> bool {
    &&& lines.len() % 3 == 0
    &&& forall|g: int|
        0 <= g < lines.len() / 3 ==> (spec_common_item(
            #[trigger] lines[3 * g],
            lines[3 * g + 1],
            lines[3 * g + 2],
        ) matches Some(c) && is_item(c))
}

proof fn lemma_total_badge_bounds(lines: Seq<Seq<char>>, a: int, b: int)
    requires
        0 <= a <= b <= lines.len() / 3,
        badge_lines_ok(lines),
    ensures
        spec_total_badge_priority(lines, a) <= spec_total_badge_priority(lines, b),
        spec_total_badge_priority(lines, a) >= 0,
    decreases b - a + a,
{
    if a < b {
        lemma_total_badge_bounds(lines, a, b - 1);
        assert(spec_common_item(lines[3 * (b - 1)], lines[3 * (b - 1) + 1], lines[3 * (b - 1) + 2])
            matches Some(c) && is_item(c));
    } else if a > 0 {
        lemma_total_badge_bounds(lines, a - 1, a - 1);
    }
}

/// Sums the badge priorities of the groups of three lines.
pub fn total_badge_priority(lines: &Vec<String>) -> (r: u32)
    requires
        badge_lines_ok(lines.deep_view()),
        spec_total_badge_priority(lines.deep_view(), lines@.len() as int / 3) <= u32::MAX,
    ensures
        r == spec_total_badge_priority(lines.deep_view(), lines@.len() as int / 3),
{
    let ghost ldv = lines.deep_view();
    let n = lines.len();
    let groups = n / 3;
    let mut sum: u32 = 0;
    let mut g: usize = 0;
    while g < groups
        invariant
            0 <= g <= groups,
            groups == lines@.len() / 3,
            n == lines@.len(),
            ldv == lines.deep_view(),
            ldv.len() == lines@.len(),
            badge_lines_ok(ldv),
            spec_total_badge_priority(ldv, groups as int) <= u32::MAX,
            sum == spec_total_badge_priority(ldv, g as int),
            forall|q: int| 0 <= q < ldv.len() ==> #[trigger] ldv[q] == lines@[q]@,
        decreases groups - g,
    {
        proof {
            lemma_total_badge_bounds(ldv, g as int + 1, groups as int);
            assert(3 * (g as int) < ldv.len());
        }
        let group: [&str; 3] = [
            lines[3 * g].as_str(),
            lines[3 * g + 1].as_str(),
            lines[3 * g + 2].as_str(),
        ];
        let badge_item = find_common_item(&group);
        let p = get_item_priority(badge_item);
        sum = sum + p;
        g = g + 1;
    }
    sum
}

} // verus!

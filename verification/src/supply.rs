//! Crate stacks and rearrangement moves: parsing `move <n> from <a> to <b>`
//! orders, the two mover behaviours, and the starting-stack drawing.

use vstd::prelude::*;
use crate::digits::{is_digit, all_digits, dec_value, parse_usize};

verus! {

/// One rearrangement order: how many crates leave which stack for which.
/// Stack locations are one-based, as the orders write them.
#[derive(Clone, Copy, Debug, PartialEq, Eq, Structural)]
pub struct Move {
    pub number_of_crates: usize,
    pub origin: usize,
    pub target: usize,
}

pub open spec fn move_lit() -> Seq<char> {
    seq!['m', 'o', 'v', 'e', ' ']
}

pub open spec fn from_lit() -> Seq<char> {
    seq![' ', 'f', 'r', 'o', 'm', ' ']
}

pub open spec fn to_lit() -> Seq<char> {
    seq![' ', 't', 'o', ' ']
}

/// `pat` occurs in `s` starting at `i`.
pub open spec fn matches_at(s: Seq<char>, i: int, pat: Seq<char>) -> bool {
    0 <= i && i + pat.len() <= s.len() && s.subrange(i, i + pat.len()) == pat
}

/// The end of the digit run starting at `from`.
pub open spec fn digits_end(s: Seq<char>, from: int) -> int
    decreases s.len() - from,
        when 0 <= from <= s.len()
{
    if from == s.len() {
        from
    } else if is_digit(s[from]) {
        digits_end(s, from + 1)
    } else {
        from
    }
}

pub proof fn lemma_digits_end_bounds(s: Seq<char>, from: int)
    requires
        0 <= from <= s.len(),
    ensures
        from <= digits_end(s, from) <= s.len(),
        all_digits(s.subrange(from, digits_end(s, from))),
        digits_end(s, from) < s.len() ==> !is_digit(s[digits_end(s, from)]),
    decreases s.len() - from,
{
    if from < s.len() && is_digit(s[from]) {
        lemma_digits_end_bounds(s, from + 1);
        assert forall|j: int| 0 <= j < s.subrange(from, digits_end(s, from)).len() implies is_digit(
            #[trigger] s.subrange(from, digits_end(s, from))[j],
        ) by {
            if j > 0 {
                assert(s.subrange(from, digits_end(s, from))[j] == s.subrange(
                    from + 1,
                    digits_end(s, from + 1),
                )[j - 1]);
            }
        }
    }
}

/// The order read at position `i`: the word `move`, a digit run, `from`, a
/// digit run, `to`, a digit run — greedy digit runs, values unbounded.
pub open spec fn move_match_at(s: Seq<char>, i: int) -> Option<(int, int, int)> {
    if !matches_at(s, i, move_lit()) {
        None
    } else {
        let a0 = i + 5;
        let a1 = digits_end(s, a0);
        if a1 == a0 || !matches_at(s, a1, from_lit()) {
            None
        } else {
            let b0 = a1 + 6;
            let b1 = digits_end(s, b0);
            if b1 == b0 || !matches_at(s, b1, to_lit()) {
                None
            } else {
                let c0 = b1 + 4;
                let c1 = digits_end(s, c0);
                if c1 == c0 {
                    None
                } else {
                    Some(
                        (
                            dec_value(s.subrange(a0, a1)),
                            dec_value(s.subrange(b0, b1)),
                            dec_value(s.subrange(c0, c1)),
                        ),
                    )
                }
            }
        }
    }
}

/// The first position at or after `from` where an order reads, or the length
/// of `s` when none does.
pub open spec fn first_move_pos(s: Seq<char>, from: int) -> int
    decreases s.len() - from,
        when 0 <= from <= s.len()
{
    if from == s.len() {
        from
    } else if move_match_at(s, from) is Some {
        from
    } else {
        first_move_pos(s, from + 1)
    }
}

/// The leftmost order in `s`, if any position carries one.
pub open spec fn spec_find_move(s: Seq<char>) -> Option<(int, int, int)> {
    let p = first_move_pos(s, 0);
    if p == s.len() {
        None
    } else {
        move_match_at(s, p)
    }
}

/// `pat` occurs in `s` at `i`.
fn matches_lit_at(s: &str, i: usize, pat: &str) -> (r: bool)
    requires
        i <= s@.len(),
    ensures
        r == matches_at(s@, i as int, pat@),
{
    let n = s.unicode_len();
    let m = pat.unicode_len();
    if m > n - i {
        return false;
    }
    let mut j: usize = 0;
    while j < m
        invariant
            0 <= j <= m,
            i + m <= n,
            n == s@.len(),
            m == pat@.len(),
            forall|q: int| 0 <= q < j ==> s@[i + q] == pat@[q],
        decreases m - j,
    {
        if s.get_char(i + j) != pat.get_char(j) {
            proof {
                if matches_at(s@, i as int, pat@) {
                    assert(s@.subrange(i as int, i as int + m as int)[j as int] == pat@[j as int]);
                }
            }
            return false;
        }
        j = j + 1;
    }
    proof {
        assert(s@.subrange(i as int, i as int + m as int) =~= pat@);
    }
    true
}

/// Finds the end of the digit run at `from`.
fn digits_end_exec(s: &str, from: usize) -> (r: usize)
    requires
        from <= s@.len(),
    ensures
        r == digits_end(s@, from as int),
        from <= r <= s@.len(),
{
    let n = s.unicode_len();
    let mut i: usize = from;
    while i < n
        invariant
            from <= i <= n,
            n == s@.len(),
            digits_end(s@, from as int) == digits_end(s@, i as int),
        decreases n - i,
    {
        let c = s.get_char(i);
        if c < '0' || c > '9' {
            return i;
        }
        i = i + 1;
    }
    i
}

impl Move {
    /// Reads the leftmost rearrangement order out of a line of text; `None`
    /// when no order occurs, or when one of its three values does not fit.
    pub fn parse(s: &str) -> (r: Option<Move>)
        ensures
            match r {
                Some(m) => spec_find_move(s@) == Some(
                    (m.number_of_crates as int, m.origin as int, m.target as int),
                ),
                None => match spec_find_move(s@) {
                    None => true,
                    Some(v) => v.0 > usize::MAX || v.1 > usize::MAX || v.2 > usize::MAX,
                },
            },
    {
        proof {
            reveal_strlit("move ");
            reveal_strlit(" from ");
            reveal_strlit(" to ");
            assert("move "@ =~= move_lit());
            assert(" from "@ =~= from_lit());
            assert(" to "@ =~= to_lit());
        }
        let n = s.unicode_len();
        let mut i: usize = 0;
        while i < n
            invariant
                0 <= i <= n,
                n == s@.len(),
                first_move_pos(s@, 0) == first_move_pos(s@, i as int),
                "move "@ == move_lit(),
                " from "@ == from_lit(),
                " to "@ == to_lit(),
            decreases n - i,
        {
            if matches_lit_at(s, i, "move ") {
                let a0 = i + 5;
                let a1 = digits_end_exec(s, a0);
                if a1 != a0 && matches_lit_at(s, a1, " from ") {
                    let b0 = a1 + 6;
                    let b1 = digits_end_exec(s, b0);
                    if b1 != b0 && matches_lit_at(s, b1, " to ") {
                        let c0 = b1 + 4;
                        let c1 = digits_end_exec(s, c0);
                        if c1 != c0 {
                            proof {
                                assert(move_match_at(s@, i as int) == Some(
                                    (
                                        dec_value(s@.subrange(a0 as int, a1 as int)),
                                        dec_value(s@.subrange(b0 as int, b1 as int)),
                                        dec_value(s@.subrange(c0 as int, c1 as int)),
                                    ),
                                ));
                                assert(first_move_pos(s@, i as int) == i as int);
                                lemma_digits_end_bounds(s@, a0 as int);
                                lemma_digits_end_bounds(s@, b0 as int);
                                lemma_digits_end_bounds(s@, c0 as int);
                            }
                            let ta = s.substring_char(a0, a1);
                            let tb = s.substring_char(b0, b1);
                            let tc = s.substring_char(c0, c1);
                            assert(ta@ =~= s@.subrange(a0 as int, a1 as int));
                            assert(tb@ =~= s@.subrange(b0 as int, b1 as int));
                            assert(tc@ =~= s@.subrange(c0 as int, c1 as int));
                            let number_of_crates = match parse_usize(ta) {
                                Some(v) => v,
                                None => {
                                    return None;
                                },
                            };
                            let origin = match parse_usize(tb) {
                                Some(v) => v,
                                None => {
                                    return None;
                                },
                            };
                            let target = match parse_usize(tc) {
                                Some(v) => v,
                                None => {
                                    return None;
                                },
                            };
                            return Some(Move { number_of_crates, origin, target });
                        }
                    }
                }
            }
            proof {
                assert(move_match_at(s@, i as int) is None);
            }
            i = i + 1;
        }
        None
    }
}

/// The stacks as plain character sequences.
pub open spec fn stacks_view(stacks: Seq<Vec<char>>) -> Seq<Seq<char>> {
    stacks.map_values(|s: Vec<char>| s@)
}

/// The move is addressed to stacks that exist; locations are one-based.
pub open spec fn move_in_bounds(m: Move, stacks: Seq<Seq<char>>) -> bool {
    1 <= m.origin && m.origin - 1 < stacks.len() && 1 <= m.target && m.target - 1 < stacks.len()
}

/// One crate at a time: up to `number_of_crates` crates leave the top of the
/// origin for the top of the target, so their order reverses; fewer move when
/// the origin runs dry; origin and target alike leave the stacks unchanged.
pub open spec fn spec_apply(m: Move, stacks: Seq<Seq<char>>) -> Seq<Seq<char>> {
    let o = m.origin - 1;
    let t = m.target - 1;
    if o == t {
        stacks
    } else {
        let len0 = stacks[o].len() as int;
        let k = vstd::math::min(m.number_of_crates as int, len0);
        stacks.update(o, stacks[o].take(len0 - k)).update(
            t,
            stacks[t] + stacks[o].skip(len0 - k).reverse(),
        )
    }
}

/// All at once: the top `number_of_crates` crates of the origin move to the
/// target keeping their order; `None` when the origin holds too few.
pub open spec fn spec_apply_mover9001(m: Move, stacks: Seq<Seq<char>>) -> Option<Seq<Seq<char>>> {
    let o = m.origin - 1;
    let t = m.target - 1;
    let len0 = stacks[o].len() as int;
    if m.number_of_crates > stacks[o].len() {
        None
    } else if o == t {
        Some(stacks)
    } else {
        Some(
            stacks.update(o, stacks[o].take(len0 - m.number_of_crates)).update(
                t,
                stacks[t] + stacks[o].skip(len0 - m.number_of_crates),
            ),
        )
    }
}

impl Move {
    /// Applies the order one crate at a time, as the older mover does.
    pub fn apply(&self, stacks: &mut Vec<Vec<char>>)
        requires
            move_in_bounds(*self, stacks_view(old(stacks)@)),
            self.number_of_crates >= 1,
        ensures
            stacks_view(final(stacks)@) == spec_apply(*self, stacks_view(old(stacks)@)),
    {
        let o = self.origin - 1;
        let t = self.target - 1;
        let ghost orig = stacks_view(old(stacks)@);
        let ghost len0 = orig[o as int].len() as int;
        let mut crates_to_move = self.number_of_crates;
        proof {
            if o != t {
                assert(orig[o as int].take(len0 - 0) =~= orig[o as int]);
                assert(orig[o as int].skip(len0 - 0) =~= Seq::<char>::empty());
                assert(orig[o as int].skip(len0 - 0).reverse() =~= Seq::<char>::empty());
                assert(orig[t as int] + orig[o as int].skip(len0 - 0).reverse() =~= orig[t as int]);
                assert(stacks_view(stacks@) =~~= orig.update(o as int, orig[o as int].take(len0 - 0)).update(
                    t as int,
                    orig[t as int] + orig[o as int].skip(len0 - 0).reverse(),
                ));
            }
        }
        loop
            invariant_except_break
                o == self.origin - 1,
                t == self.target - 1,
                o < stacks@.len(),
                t < stacks@.len(),
                stacks@.len() == orig.len(),
                1 <= crates_to_move <= self.number_of_crates,
                len0 == orig[o as int].len() as int,
                o == t ==> stacks_view(stacks@) == orig,
                o != t ==> ({
                    let j = self.number_of_crates - crates_to_move;
                    &&& j <= len0
                    &&& stacks_view(stacks@) == orig.update(
                        o as int,
                        orig[o as int].take(len0 - j),
                    ).update(t as int, orig[t as int] + orig[o as int].skip(len0 - j).reverse())
                }),
            ensures
                stacks_view(stacks@) == spec_apply(*self, orig),
            decreases crates_to_move,
        {
            let ghost pre = stacks@;
            proof {
                assert(forall|q: int|
                    0 <= q < pre.len() ==> #[trigger] pre[q]@ == stacks_view(pre)[q]);
                if o != t {
                    let j = (self.number_of_crates - crates_to_move) as int;
                    assert(stacks_view(stacks@)[o as int] == orig[o as int].take(len0 - j));
                    assert(stacks_view(stacks@)[t as int] == orig[t as int] + orig[o as int].skip(
                        len0 - j,
                    ).reverse());
                }
            }
            let popped = stacks[o].pop();
            match popped {
                Some(acrate) => {
                    stacks[t].push(acrate);
                    proof {
                        let j = (self.number_of_crates - crates_to_move) as int;
                        if o == t {
                            assert forall|q: int| 0 <= q < stacks@.len() implies stacks_view(
                                stacks@,
                            )[q] == orig[q] by {
                                if q == o as int {
                                    assert(stacks_view(stacks@)[q] =~= orig[q]);
                                }
                            }
                            assert(stacks_view(stacks@) =~= orig);
                        } else {
                            assert(orig[o as int].take(len0 - j).len() > 0);
                            assert(j < len0);
                            let top = orig[o as int][len0 - j - 1];
                            assert(acrate == top);
                            assert(orig[o as int].take(len0 - j).drop_last() =~= orig[o as int].take(
                                len0 - j - 1,
                            ));
                            assert(orig[o as int].skip(len0 - j - 1).reverse() =~= orig[o as int].skip(
                                len0 - j,
                            ).reverse().push(top));
                            assert(orig[t as int] + orig[o as int].skip(len0 - j - 1).reverse()
                                =~= (orig[t as int] + orig[o as int].skip(len0 - j).reverse()).push(
                                top,
                            ));
                            assert(stacks@[o as int]@ == orig[o as int].take(len0 - j).drop_last());
                            assert(stacks@[t as int]@ == (orig[t as int] + orig[o as int].skip(
                                len0 - j,
                            ).reverse()).push(top));
                            assert forall|q: int|
                                0 <= q < stacks@.len() && q != o as int && q != t as int implies (
                            #[trigger] stacks@[q])@ == orig[q] by {
                                assert(stacks@[q] == pre[q]);
                                assert(stacks_view(pre)[q] == orig[q]);
                            }
                            assert(stacks_view(stacks@) =~~= orig.update(
                                o as int,
                                orig[o as int].take(len0 - (j + 1)),
                            ).update(
                                t as int,
                                orig[t as int] + orig[o as int].skip(len0 - (j + 1)).reverse(),
                            ));
                        }
                    }
                    crates_to_move = crates_to_move - 1;
                    if crates_to_move == 0 {
                        proof {
                            if o != t {
                                assert(vstd::math::min(self.number_of_crates as int, len0)
                                    == self.number_of_crates as int);
                            }
                        }
                        break;
                    }
                },
                None => {
                    proof {
                        if o != t {
                            let j = (self.number_of_crates - crates_to_move) as int;
                            assert(orig[o as int].take(len0 - j).len() == 0);
                            assert(j == len0);
                            assert(vstd::math::min(self.number_of_crates as int, len0) == len0);
                        } else {
                            assert(stacks_view(stacks@) =~= orig);
                        }
                    }
                    break;
                },
            }
        }
    }

    /// Applies the order moving the whole block at once, keeping its order.
    pub fn apply_mover9001(&self, stacks: &mut Vec<Vec<char>>)
        requires
            move_in_bounds(*self, stacks_view(old(stacks)@)),
            self.number_of_crates <= old(stacks)@[self.origin - 1]@.len(),
        ensures
            spec_apply_mover9001(*self, stacks_view(old(stacks)@)) == Some(
                stacks_view(final(stacks)@),
            ),
    {
        let o = self.origin - 1;
        let t = self.target - 1;
        let ghost orig = stacks_view(old(stacks)@);
        let split_index = stacks[o].len() - self.number_of_crates;
        let mut moved_stack = stacks[o].split_off(split_index);
        stacks[t].append(&mut moved_stack);
        proof {
            let len0 = orig[o as int].len() as int;
            assert(orig[o as int].subrange(0, split_index as int) =~= orig[o as int].take(
                len0 - self.number_of_crates,
            ));
            if o == t {
                assert forall|q: int| 0 <= q < stacks@.len() implies stacks_view(stacks@)[q]
                    == orig[q] by {
                    if q == o as int {
                        assert(stacks_view(stacks@)[q] =~= orig[q]);
                    }
                }
                assert(stacks_view(stacks@) =~= orig);
            } else {
                assert(stacks_view(stacks@) =~= orig.update(
                    o as int,
                    orig[o as int].take(len0 - self.number_of_crates),
                ).update(
                    t as int,
                    orig[t as int] + orig[o as int].skip(len0 - self.number_of_crates),
                ));
            }
        }
    }
}

/// The stacks after moves `i..` are applied one crate at a time.
pub open spec fn spec_run(stacks: Seq<Seq<char>>, moves: Seq<Move>, i: int) -> Seq<Seq<char>>
    decreases moves.len() - i,
        when 0 <= i <= moves.len()
{
    if i == moves.len() {
        stacks
    } else {
        spec_run(spec_apply(moves[i], stacks), moves, i + 1)
    }
}

/// The stacks after moves `i..` are applied a block at a time; `None` when
/// some move asks for more crates than its origin then holds.
pub open spec fn spec_run_mover9001(stacks: Seq<Seq<char>>, moves: Seq<Move>, i: int) -> Option<
    Seq<Seq<char>>,
>
    decreases moves.len() - i,
        when 0 <= i <= moves.len()
{
    if i == moves.len() {
        Some(stacks)
    } else {
        match spec_apply_mover9001(moves[i], stacks) {
            Some(next) => spec_run_mover9001(next, moves, i + 1),
            None => None,
        }
    }
}

/// Every move addresses existing stacks and moves at least one crate.
pub open spec fn moves_in_bounds(moves: Seq<Move>, n_stacks: int) -> bool {
    forall|i: int|
        0 <= i < moves.len() ==> {
            let m = #[trigger] moves[i];
            1 <= m.origin && m.origin - 1 < n_stacks && 1 <= m.target && m.target - 1 < n_stacks
                && m.number_of_crates >= 1
        }
}

/// Applies every move in order, one crate at a time.
pub fn apply_all(stacks: &mut Vec<Vec<char>>, moves: &Vec<Move>)
    requires
        moves_in_bounds(moves@, old(stacks)@.len() as int),
    ensures
        stacks_view(final(stacks)@) == spec_run(stacks_view(old(stacks)@), moves@, 0),
{
    let mut i: usize = 0;
    while i < moves.len()
        invariant
            0 <= i <= moves@.len(),
            stacks@.len() == old(stacks)@.len(),
            moves_in_bounds(moves@, stacks@.len() as int),
            spec_run(stacks_view(old(stacks)@), moves@, 0) == spec_run(
                stacks_view(stacks@),
                moves@,
                i as int,
            ),
        decreases moves@.len() - i,
    {
        let m = moves[i];
        proof {
            if m.origin != m.target {
                assert(spec_apply(m, stacks_view(stacks@)).len() == stacks_view(stacks@).len());
            }
        }
        m.apply(stacks);
        i = i + 1;
    }
}

/// Applies every move in order, a block at a time.
pub fn apply_all_mover9001(stacks: &mut Vec<Vec<char>>, moves: &Vec<Move>)
    requires
        moves_in_bounds(moves@, old(stacks)@.len() as int),
        spec_run_mover9001(stacks_view(old(stacks)@), moves@, 0) is Some,
    ensures
        spec_run_mover9001(stacks_view(old(stacks)@), moves@, 0) == Some(
            stacks_view(final(stacks)@),
        ),
{
    let mut i: usize = 0;
    while i < moves.len()
        invariant
            0 <= i <= moves@.len(),
            stacks@.len() == old(stacks)@.len(),
            moves_in_bounds(moves@, stacks@.len() as int),
            spec_run_mover9001(stacks_view(stacks@), moves@, i as int) is Some,
            spec_run_mover9001(stacks_view(old(stacks)@), moves@, 0) == spec_run_mover9001(
                stacks_view(stacks@),
                moves@,
                i as int,
            ),
        decreases moves@.len() - i,
    {
        let m = moves[i];
        let ghost view_before = stacks_view(stacks@);
        proof {
            assert(spec_apply_mover9001(m, view_before) is Some);
            assert(m.number_of_crates <= view_before[m.origin - 1].len());
            assert(stacks@[m.origin as int - 1]@ == view_before[m.origin - 1]);
        }
        m.apply_mover9001(stacks);
        proof {
            if m.origin != m.target {
                assert(stacks_view(stacks@).len() == view_before.len());
            }
        }
        i = i + 1;
    }
}

/// The top crate of every stack, in stack order.
pub fn top_crates(stacks: &Vec<Vec<char>>) -> (r: Vec<char>)
    requires
        forall|i: int| 0 <= i < stacks@.len() ==> (#[trigger] stacks@[i])@.len() > 0,
    ensures
        r@.len() == stacks@.len(),
        forall|i: int| 0 <= i < stacks@.len() ==> r@[i] == (#[trigger] stacks@[i])@.last(),
{
    let mut r: Vec<char> = Vec::new();
    let mut i: usize = 0;
    while i < stacks.len()
        invariant
            0 <= i <= stacks@.len(),
            r@.len() == i as int,
            forall|q: int| 0 <= q < stacks@.len() ==> (#[trigger] stacks@[q])@.len() > 0,
            forall|q: int| 0 <= q < i ==> r@[q] == (#[trigger] stacks@[q])@.last(),
        decreases stacks@.len() - i,
    {
        let stack = &stacks[i];
        let c = stack[stack.len() - 1];
        r.push(c);
        i = i + 1;
    }
    r
}

/// A line of the stack drawing (it shows a crate in brackets).
pub open spec fn is_header(line: Seq<char>) -> bool {
    line.contains('[')
}

/// The number of leading lines that belong to the stack drawing.
pub open spec fn header_count(lines: Seq<Seq<char>>, from: int) -> int
    decreases lines.len() - from,
        when 0 <= from <= lines.len()
{
    if from == lines.len() {
        from
    } else if is_header(lines[from]) {
        header_count(lines, from + 1)
    } else {
        from
    }
}

/// How many crate columns a drawing line of `n` characters shows: one for
/// each position 1, 5, 9, ...
pub open spec fn layer_len(n: int) -> int {
    if n <= 1 {
        0
    } else {
        (n - 2) / 4 + 1
    }
}

/// The crate letters of one drawing line, a blank column shown as a space.
pub open spec fn layer_chars(line: Seq<char>) -> Seq<char> {
    Seq::new(layer_len(line.len() as int) as nat, |k: int| line[1 + 4 * k])
}

/// Stack `s` read bottom-up from drawing layers `j..` (layer 0 is the bottom,
/// the last drawing line): collect the column until a blank; `None` when a
/// layer is too short to show the column at all.
pub open spec fn spec_stack(lines: Seq<Seq<char>>, h: int, s: int, j: int) -> Option<Seq<char>>
    decreases h - j,
        when 0 <= j <= h <= lines.len()
{
    if j == h {
        Some(Seq::empty())
    } else {
        let lc = layer_chars(lines[h - 1 - j]);
        if s < 0 || s >= lc.len() {
            None
        } else if lc[s] == ' ' {
            Some(Seq::empty())
        } else {
            match spec_stack(lines, h, s, j + 1) {
                Some(rest) => Some(seq![lc[s]] + rest),
                None => None,
            }
        }
    }
}

/// The rearrangement orders read from lines `i..`, lines without one skipped.
pub open spec fn spec_moves(lines: Seq<Seq<char>>, i: int) -> Seq<(int, int, int)>
    decreases lines.len() - i,
        when 0 <= i <= lines.len()
{
    if i == lines.len() {
        Seq::empty()
    } else {
        match spec_find_move(lines[i]) {
            Some(v) => seq![v] + spec_moves(lines, i + 1),
            None => spec_moves(lines, i + 1),
        }
    }
}

/// Where the move lines start: the drawing, then one label line consumed.
pub open spec fn moves_start(lines: Seq<Seq<char>>) -> int {
    let h = header_count(lines, 0);
    if h == lines.len() {
        h
    } else {
        h + 1
    }
}

/// The whole input holds a readable drawing and readable orders: at least one
/// drawing line, every column readable, and no order whose values overflow.
pub open spec fn input_readable(lines: Seq<Seq<char>>) -> bool {
    let h = header_count(lines, 0);
    &&& h >= 1
    &&& forall|s: int|
        0 <= s < layer_chars(lines[h - 1]).len() ==> spec_stack(lines, h, s, 0) is Some
    &&& forall|i: int|
        moves_start(lines) <= i < lines.len() ==> match spec_find_move(#[trigger] lines[i]) {
            Some(v) => v.0 <= usize::MAX && v.1 <= usize::MAX && v.2 <= usize::MAX,
            None => true,
        }
}

/// The move as a triple of its values.
pub open spec fn move_triple(m: Move) -> (int, int, int) {
    (m.number_of_crates as int, m.origin as int, m.target as int)
}

/// Reads the starting stacks off the drawing at the top of the input, then one
/// rearrangement order from each remaining line that carries one.
pub fn parse_input(lines: &Vec<String>) -> (r: (Vec<Vec<char>>, Vec<Move>))
    requires
        input_readable(lines.deep_view()),
    ensures
        ({
            let ldv = lines.deep_view();
            let h = header_count(ldv, 0);
            &&& r.0@.len() == layer_chars(ldv[h - 1]).len()
            &&& forall|s: int|
                0 <= s < r.0@.len() ==> Some((#[trigger] r.0@[s])@) == spec_stack(ldv, h, s, 0)
            &&& r.1@.map_values(|m: Move| move_triple(m)) == spec_moves(ldv, moves_start(ldv))
        }),
{
    let ghost ldv = lines.deep_view();
    let n = lines.len();
    let mut h: usize = 0;
    while h < n
        invariant_except_break
            0 <= h <= n,
            n == ldv.len(),
            ldv == lines.deep_view(),
            header_count(ldv, 0) == header_count(ldv, h as int),
            forall|q: int| 0 <= q < ldv.len() ==> #[trigger] ldv[q] == lines@[q]@,
        ensures
            0 <= h <= n,
            n == ldv.len(),
            ldv == lines.deep_view(),
            header_count(ldv, 0) == h as int,
            forall|q: int| 0 <= q < ldv.len() ==> #[trigger] ldv[q] == lines@[q]@,
        decreases n - h,
    {
        let line = lines[h].as_str();
        let e = crate::scan::find_char(line, '[', 0);
        proof {
            crate::scan::lemma_token_end_bounds(line@, '[', 0);
        }
        if e == line.unicode_len() {
            assert(!is_header(ldv[h as int]));
            break;
        }
        assert(is_header(ldv[h as int]));
        h = h + 1;
    }
    let ghost gh = h as int;
    assert(header_count(ldv, 0) == gh);
    let bottom = lines[h - 1].as_str();
    let bottom_len = bottom.unicode_len();
    let n_stacks: usize = if bottom_len <= 1 {
        0
    } else {
        (bottom_len - 2) / 4 + 1
    };
    assert(n_stacks as int == layer_len(ldv[gh - 1].len() as int));
    let mut stacks: Vec<Vec<char>> = Vec::new();
    let mut s: usize = 0;
    while s < n_stacks
        invariant
            0 <= s <= n_stacks,
            1 <= gh <= ldv.len(),
            gh == header_count(ldv, 0),
            h as int == gh,
            h <= lines@.len(),
            n == ldv.len(),
            ldv == lines.deep_view(),
            input_readable(ldv),
            n_stacks as int == layer_chars(ldv[gh - 1]).len(),
            stacks@.len() == s as int,
            forall|q: int|
                0 <= q < s ==> Some((#[trigger] stacks@[q])@) == spec_stack(ldv, gh, q, 0),
            forall|q: int| 0 <= q < ldv.len() ==> #[trigger] ldv[q] == lines@[q]@,
        decreases n_stacks - s,
    {
        let mut stack: Vec<char> = Vec::new();
        let mut j: usize = 0;
        proof {
            assert(spec_stack(ldv, gh, s as int, 0) is Some);
        }
        let mut done = false;
        while !done && j < h
            invariant
                0 <= j <= gh,
                1 <= gh <= ldv.len(),
                h as int == gh,
                h <= lines@.len(),
                ldv == lines.deep_view(),
                spec_stack(ldv, gh, s as int, 0) is Some,
                !done ==> spec_stack(ldv, gh, s as int, j as int) is Some,
                !done ==> spec_stack(ldv, gh, s as int, 0) == Some(
                    stack@ + spec_stack(ldv, gh, s as int, j as int)->Some_0,
                ),
                done ==> spec_stack(ldv, gh, s as int, 0) == Some(stack@),
                forall|q: int| 0 <= q < ldv.len() ==> #[trigger] ldv[q] == lines@[q]@,
            decreases gh - j, 1int - if done {
                1int
            } else {
                0int
            },
        {
            let layer = lines[h - 1 - j].as_str();
            let llen = layer.unicode_len();
            let ghost lc = layer_chars(ldv[gh - 1 - j as int]);
            proof {
                assert(spec_stack(ldv, gh, s as int, j as int) is Some);
                assert((s as int) < lc.len());
                assert(lc.len() == layer_len(llen as int));
                assert(llen >= 2);
                assert(4 * (s as int) <= 4 * ((llen as int - 2) / 4));
                assert(4 * ((llen as int - 2) / 4) <= llen as int - 2);
            }
            let pos = 1 + 4 * s;
            let c = layer.get_char(pos);
            proof {
                assert(lc[s as int] == layer@[1 + 4 * (s as int)]);
            }
            if c == ' ' {
                done = true;
                proof {
                    assert(spec_stack(ldv, gh, s as int, j as int) == Some(Seq::<char>::empty()));
                    assert(stack@ + Seq::<char>::empty() =~= stack@);
                }
            } else {
                stack.push(c);
                proof {
                    let rest = spec_stack(ldv, gh, s as int, j as int + 1)->Some_0;
                    assert(spec_stack(ldv, gh, s as int, j as int) == Some(seq![c] + rest));
                    assert((stack@.drop_last() + (seq![c] + rest)) =~= (stack@ + rest));
                }
                j = j + 1;
            }
        }
        proof {
            if !done {
                assert(spec_stack(ldv, gh, s as int, j as int) == Some(Seq::<char>::empty()));
                assert(stack@ + Seq::<char>::empty() =~= stack@);
            }
        }
        stacks.push(stack);
        s = s + 1;
    }
    let mut moves: Vec<Move> = Vec::new();
    let mut i: usize = if h < n {
        h + 1
    } else {
        h
    };
    assert(i as int == moves_start(ldv));
    while i < n
        invariant
            moves_start(ldv) <= i <= n,
            n == ldv.len(),
            ldv == lines.deep_view(),
            input_readable(ldv),
            moves@.map_values(|m: Move| move_triple(m)) + spec_moves(ldv, i as int) == spec_moves(
                ldv,
                moves_start(ldv),
            ),
            forall|q: int| 0 <= q < ldv.len() ==> #[trigger] ldv[q] == lines@[q]@,
        decreases n - i,
    {
        match Move::parse(lines[i].as_str()) {
            Some(m) => {
                moves.push(m);
                proof {
                    assert(moves@.map_values(|mm: Move| move_triple(mm)) =~= moves@.drop_last().map_values(
                        |mm: Move| move_triple(mm),
                    ).push(move_triple(m)));
                    assert(moves@.drop_last().map_values(|mm: Move| move_triple(mm)).push(
                        move_triple(m),
                    ) + spec_moves(ldv, i as int + 1) =~= moves@.drop_last().map_values(
                        |mm: Move| move_triple(mm),
                    ) + (seq![move_triple(m)] + spec_moves(ldv, i as int + 1)));
                }
            },
            None => {
                proof {
                    assert(spec_find_move(ldv[i as int]) is None);
                }
            },
        }
        i = i + 1;
    }
    proof {
        assert(moves@.map_values(|m: Move| move_triple(m)) + Seq::<(int, int, int)>::empty()
            =~= moves@.map_values(|m: Move| move_triple(m)));
    }
    (stacks, moves)
}

} // verus!

//! Strategy-guide scoring: a round of hands, the outcome of a round, and the
//! score of a round read from a line such as `A Y`.

use vstd::prelude::*;

verus! {

/// A hand of the game.
#[derive(Clone, Copy, Debug, PartialEq, Eq, Structural)]
pub enum Shape {
    Rock,
    Paper,
    Scissors,
}

/// How a round ends for the first player.
#[derive(Clone, Copy, Debug, PartialEq, Eq, Structural)]
pub enum Outcome {
    Loss,
    Draw,
    Win,
}

impl Shape {
    /// The score a hand is worth on its own.
    pub open spec fn spec_value(self) -> u32 {
        match self {
            Shape::Rock => 1,
            Shape::Paper => 2,
            Shape::Scissors => 3,
        }
    }

    pub fn value(self) -> (r: u32)
        ensures
            r == self.spec_value(),
    {
        match self {
            Shape::Rock => 1,
            Shape::Paper => 2,
            Shape::Scissors => 3,
        }
    }

    /// The hand a guide letter stands for: `A`/`X` rock, `B`/`Y` paper,
    /// `C`/`Z` scissors.
    pub open spec fn spec_from_char(c: char) -> Option<Shape> {
        if c == 'A' || c == 'X' {
            Some(Shape::Rock)
        } else if c == 'B' || c == 'Y' {
            Some(Shape::Paper)
        } else if c == 'C' || c == 'Z' {
            Some(Shape::Scissors)
        } else {
            None
        }
    }

    pub fn from_char(c: char) -> (r: Option<Shape>)
        ensures
            r == Shape::spec_from_char(c),
    {
        if c == 'A' || c == 'X' {
            Some(Shape::Rock)
        } else if c == 'B' || c == 'Y' {
            Some(Shape::Paper)
        } else if c == 'C' || c == 'Z' {
            Some(Shape::Scissors)
        } else {
            None
        }
    }
}

impl Outcome {
    /// The score an outcome is worth: six for a win, three for a draw.
    pub open spec fn spec_value(self) -> u32 {
        match self {
            Outcome::Loss => 0,
            Outcome::Draw => 3,
            Outcome::Win => 6,
        }
    }

    pub fn value(self) -> (r: u32)
        ensures
            r == self.spec_value(),
    {
        match self {
            Outcome::Loss => 0,
            Outcome::Draw => 3,
            Outcome::Win => 6,
        }
    }

    /// The outcome a guide letter calls for: `X` loss, `Y` draw, `Z` win.
    pub open spec fn spec_from_char(c: char) -> Option<Outcome> {
        if c == 'X' {
            Some(Outcome::Loss)
        } else if c == 'Y' {
            Some(Outcome::Draw)
        } else if c == 'Z' {
            Some(Outcome::Win)
        } else {
            None
        }
    }

    pub fn from_char(c: char) -> (r: Option<Outcome>)
        ensures
            r == Outcome::spec_from_char(c),
    {
        if c == 'X' {
            Some(Outcome::Loss)
        } else if c == 'Y' {
            Some(Outcome::Draw)
        } else if c == 'Z' {
            Some(Outcome::Win)
        } else {
            None
        }
    }
}

/// The outcome of a round for the first hand: rock beats scissors, paper
/// beats rock, scissors beat paper.
pub open spec fn spec_outcome(first: Shape, second: Shape) -> Outcome {
    if first == second {
        Outcome::Draw
    } else {
        let winning = match first {
            Shape::Rock => second == Shape::Scissors,
            Shape::Paper => second == Shape::Rock,
            Shape::Scissors => second == Shape::Paper,
        };
        if winning {
            Outcome::Win
        } else {
            Outcome::Loss
        }
    }
}

/// Whether the first hand beats, draws with or loses to the second.
pub fn does_first_shape_win(first_shape: &Shape, scnd_shape: &Shape) -> (r: Outcome)
    ensures
        r == spec_outcome(*first_shape, *scnd_shape),
{
    if first_shape == scnd_shape {
        Outcome::Draw
    } else {
        let winning = match first_shape {
            Shape::Rock => *scnd_shape == Shape::Scissors,
            Shape::Paper => *scnd_shape == Shape::Rock,
            Shape::Scissors => *scnd_shape == Shape::Paper,
        };
        if winning {
            Outcome::Win
        } else {
            Outcome::Loss
        }
    }
}

/// The hand that reaches `target` against `against`.
pub open spec fn spec_shape_for(against: Shape, target: Outcome) -> Shape {
    match target {
        Outcome::Draw => against,
        Outcome::Win => match against {
            Shape::Rock => Shape::Paper,
            Shape::Paper => Shape::Scissors,
            Shape::Scissors => Shape::Rock,
        },
        Outcome::Loss => match against {
            Shape::Rock => Shape::Scissors,
            Shape::Paper => Shape::Rock,
            Shape::Scissors => Shape::Paper,
        },
    }
}

/// A line whose first letter names a hand and whose third names a hand.
pub open spec fn score_line_ok(line: Seq<char>) -> bool {
    line.len() >= 3 && Shape::spec_from_char(line[0]) is Some && Shape::spec_from_char(line[2])
        is Some
}

/// The score of a round read as `<their hand> <my hand>`: my hand's own value
/// plus the value of the round's outcome for me.
pub open spec fn spec_score(line: Seq<char>) -> int {
    let elves = Shape::spec_from_char(line[0])->Some_0;
    let mine = Shape::spec_from_char(line[2])->Some_0;
    spec_outcome(mine, elves).spec_value() + mine.spec_value()
}

/// Scores one guide line read as `<their hand> <my hand>`.
pub fn calculate_score(tip: &str) -> (r: u32)
    requires
        score_line_ok(tip@),
    ensures
        r == spec_score(tip@),
{
    let elves_shape = Shape::from_char(tip.get_char(0)).unwrap();
    let my_shape = Shape::from_char(tip.get_char(2)).unwrap();
    let outcome = does_first_shape_win(&my_shape, &elves_shape);
    outcome.value() + my_shape.value()
}

/// A line whose first letter names a hand and whose third an outcome.
pub open spec fn score2_line_ok(line: Seq<char>) -> bool {
    line.len() >= 3 && Shape::spec_from_char(line[0]) is Some && Outcome::spec_from_char(line[2])
        is Some
}

/// The score of a round read as `<their hand> <outcome to reach>`: the value
/// of that outcome plus the value of the hand that reaches it.
pub open spec fn spec_score2(line: Seq<char>) -> int {
    let elves = Shape::spec_from_char(line[0])->Some_0;
    let target = Outcome::spec_from_char(line[2])->Some_0;
    target.spec_value() + spec_shape_for(elves, target).spec_value()
}

/// Scores one guide line read as `<their hand> <outcome to reach>`.
pub fn calculate_score2(tip: &str) -> (r: u32)
    requires
        score2_line_ok(tip@),
    ensures
        r == spec_score2(tip@),
{
    let elves_shape = Shape::from_char(tip.get_char(0)).unwrap();
    let target_outcome = Outcome::from_char(tip.get_char(2)).unwrap();
    let my_shape = match target_outcome {
        Outcome::Draw => elves_shape,
        Outcome::Win => match elves_shape {
            Shape::Rock => Shape::Paper,
            Shape::Paper => Shape::Scissors,
            Shape::Scissors => Shape::Rock,
        },
        Outcome::Loss => match elves_shape {
            Shape::Rock => Shape::Scissors,
            Shape::Paper => Shape::Rock,
            Shape::Scissors => Shape::Paper,
        },
    };
    target_outcome.value() + my_shape.value()
}

/// The summed scores of guide lines `0..n`, read the first way.
pub open spec fn spec_total_score(lines: Seq<Seq<char>>, n: int) -> int
    decreases n,
{
    if n <= 0 {
        0
    } else {
        spec_total_score(lines, n - 1) + spec_score(lines[n - 1])
    }
}

/// The summed scores of guide lines `0..n`, read the second way.
pub open spec fn spec_total_score2(lines: Seq<Seq<char>>, n: int) -> int
    decreases n,
{
    if n <= 0 {
        0
    } else {
        spec_total_score2(lines, n - 1) + spec_score2(lines[n - 1])
    }
}

proof fn lemma_total_score_bounds(lines: Seq<Seq<char>>, n: int)
    requires
        0 <= n <= lines.len(),
        forall|i: int| 0 <= i < lines.len() ==> score_line_ok(#[trigger] lines[i]),
    ensures
        0 <= spec_total_score(lines, n) <= 9 * n,
    decreases n,
{
    if n > 0 {
        lemma_total_score_bounds(lines, n - 1);
    }
}

proof fn lemma_total_score2_bounds(lines: Seq<Seq<char>>, n: int)
    requires
        0 <= n <= lines.len(),
        forall|i: int| 0 <= i < lines.len() ==> score2_line_ok(#[trigger] lines[i]),
    ensures
        0 <= spec_total_score2(lines, n) <= 9 * n,
    decreases n,
{
    if n > 0 {
        lemma_total_score2_bounds(lines, n - 1);
    }
}

/// Sums the scores of the whole guide, each line read the first way.
pub fn total_score(lines: &Vec<String>) -> (r: u32)
    requires
        forall|i: int| 0 <= i < lines@.len() ==> score_line_ok(#[trigger] lines.deep_view()[i]),
        spec_total_score(lines.deep_view(), lines@.len() as int) <= u32::MAX,
    ensures
        r == spec_total_score(lines.deep_view(), lines@.len() as int),
{
    let ghost ldv = lines.deep_view();
    let mut sum: u32 = 0;
    let mut i: usize = 0;
    while i < lines.len()
        invariant
            0 <= i <= lines@.len(),
            ldv == lines.deep_view(),
            ldv.len() == lines@.len(),
            forall|q: int| 0 <= q < ldv.len() ==> score_line_ok(#[trigger] ldv[q]),
            spec_total_score(ldv, ldv.len() as int) <= u32::MAX,
            sum == spec_total_score(ldv, i as int),
            forall|q: int| 0 <= q < ldv.len() ==> #[trigger] ldv[q] == lines@[q]@,
        decreases lines@.len() - i,
    {
        proof {
            lemma_total_score_bounds(ldv, i as int);
            lemma_total_score_bounds(ldv, ldv.len() as int);
            assert forall|m: int| (i as int) < m <= ldv.len() implies spec_total_score(ldv, i as int)
                + spec_score(ldv[i as int]) <= spec_total_score(ldv, m) by {
                lemma_total_score_monotone(ldv, i as int + 1, m);
            }
        }
        let line_score = calculate_score(lines[i].as_str());
        sum = sum + line_score;
        i = i + 1;
    }
    sum
}

proof fn lemma_total_score_monotone(lines: Seq<Seq<char>>, a: int, b: int)
    requires
        0 <= a <= b <= lines.len(),
        forall|i: int| 0 <= i < lines.len() ==> score_line_ok(#[trigger] lines[i]),
    ensures
        spec_total_score(lines, a) <= spec_total_score(lines, b),
    decreases b - a,
{
    if a < b {
        lemma_total_score_monotone(lines, a, b - 1);
    }
}

proof fn lemma_total_score2_monotone(lines: Seq<Seq<char>>, a: int, b: int)
    requires
        0 <= a <= b <= lines.len(),
        forall|i: int| 0 <= i < lines.len() ==> score2_line_ok(#[trigger] lines[i]),
    ensures
        spec_total_score2(lines, a) <= spec_total_score2(lines, b),
    decreases b - a,
{
    if a < b {
        lemma_total_score2_monotone(lines, a, b - 1);
    }
}

/// Sums the scores of the whole guide, each line read the second way.
pub fn total_score2(lines: &Vec<String>) -> (r: u32)
    requires
        forall|i: int| 0 <= i < lines@.len() ==> score2_line_ok(#[trigger] lines.deep_view()[i]),
        spec_total_score2(lines.deep_view(), lines@.len() as int) <= u32::MAX,
    ensures
        r == spec_total_score2(lines.deep_view(), lines@.len() as int),
{
    let ghost ldv = lines.deep_view();
    let mut sum: u32 = 0;
    let mut i: usize = 0;
    while i < lines.len()
        invariant
            0 <= i <= lines@.len(),
            ldv == lines.deep_view(),
            ldv.len() == lines@.len(),
            forall|q: int| 0 <= q < ldv.len() ==> score2_line_ok(#[trigger] ldv[q]),
            spec_total_score2(ldv, ldv.len() as int) <= u32::MAX,
            sum == spec_total_score2(ldv, i as int),
            forall|q: int| 0 <= q < ldv.len() ==> #[trigger] ldv[q] == lines@[q]@,
        decreases lines@.len() - i,
    {
        proof {
            lemma_total_score2_bounds(ldv, i as int);
            assert forall|m: int| (i as int) < m <= ldv.len() implies spec_total_score2(ldv, i as int)
                + spec_score2(ldv[i as int]) <= spec_total_score2(ldv, m) by {
                lemma_total_score2_monotone(ldv, i as int + 1, m);
            }
        }
        let line_score = calculate_score2(lines[i].as_str());
        sum = sum + line_score;
        i = i + 1;
    }
    sum
}

} // verus!

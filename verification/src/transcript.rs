//! Shell-transcript lines: classifying each line of a session transcript as a
//! change-directory command, a list command, a directory entry or a file
//! entry, as the tree builder consumes them.

use vstd::prelude::*;
use crate::digits::{is_usize_string, dec_value, parse_usize};
use crate::scan::{token_end, find_char, lemma_token_end_bounds};

verus! {

/// One classified transcript line.
pub enum Input {
    ChangeDirCmd { target: String },
    ListCmd,
    DirectoryEntry { name: String },
    FileEntry { name: String, size: usize },
}

/// The mathematical shape of a classified line.
pub ghost enum SpecInput {
    Cd { target: Seq<char> },
    Ls,
    Dir { name: Seq<char> },
    File { name: Seq<char>, size: int },
}

impl View for Input {
    type V = SpecInput;

    open spec fn view(&self) -> SpecInput {
        match self {
            Input::ChangeDirCmd { target } => SpecInput::Cd { target: target@ },
            Input::ListCmd => SpecInput::Ls,
            Input::DirectoryEntry { name } => SpecInput::Dir { name: name@ },
            Input::FileEntry { name, size } => SpecInput::File { name: name@, size: *size as int },
        }
    }
}

/// A line that no classification accepts.
#[derive(Clone, Copy, Debug, PartialEq, Eq, Structural)]
pub struct ParseInputError;

pub open spec fn cd_prefix() -> Seq<char> {
    seq!['$', ' ', 'c', 'd']
}

pub open spec fn ls_line() -> Seq<char> {
    seq!['$', ' ', 'l', 's']
}

pub open spec fn dir_prefix() -> Seq<char> {
    seq!['d', 'i', 'r', ' ']
}

pub open spec fn is_cd_line(s: Seq<char>) -> bool {
    s.len() >= 4 && s.take(4) == cd_prefix()
}

pub open spec fn is_dir_line(s: Seq<char>) -> bool {
    s.len() >= 4 && s.take(4) == dir_prefix()
}

/// The index of the last space of `s`, or `-1` when there is none.
pub open spec fn last_space(s: Seq<char>) -> int
    decreases s.len(),
{
    if s.len() == 0 {
        -1
    } else if s.last() == ' ' {
        s.len() - 1
    } else {
        last_space(s.drop_last())
    }
}

/// The final space-separated token of `s` (all of `s` when it has no space).
pub open spec fn last_token(s: Seq<char>) -> Seq<char> {
    s.skip(last_space(s) + 1)
}

pub proof fn lemma_last_space_bounds(s: Seq<char>)
    ensures
        -1 <= last_space(s) < s.len(),
        last_space(s) >= 0 ==> s[last_space(s)] == ' ',
        forall|j: int| last_space(s) < j < s.len() ==> s[j] != ' ',
    decreases s.len(),
{
    if s.len() > 0 && s.last() != ' ' {
        lemma_last_space_bounds(s.drop_last());
        assert(forall|j: int| 0 <= j < s.len() - 1 ==> s[j] == s.drop_last()[j]);
    }
}

/// How one transcript line is classified, or `None` for a malformed line:
/// a `$ cd` prefix gives a change-directory command whose target is the final
/// space-separated token; exactly `$ ls` gives the list command; a `dir `
/// prefix gives a directory entry named by the remainder; otherwise the line
/// must be `<size> <name>` with a `usize` decimal size, whose name is the
/// second space-separated token.
pub open spec fn spec_parse(s: Seq<char>) -> Option<SpecInput> {
    if is_cd_line(s) {
        Some(SpecInput::Cd { target: last_token(s) })
    } else if s == ls_line() {
        Some(SpecInput::Ls)
    } else if is_dir_line(s) {
        Some(SpecInput::Dir { name: s.skip(4) })
    } else {
        let size_end = token_end(s, ' ', 0);
        let size_tok = s.take(size_end);
        if is_usize_string(size_tok) && size_end < s.len() {
            Some(
                SpecInput::File {
                    name: s.subrange(size_end + 1, token_end(s, ' ', size_end + 1)),
                    size: dec_value(size_tok),
                },
            )
        } else {
            None
        }
    }
}

/// `s` begins with the four characters `a b c d`.
fn has_prefix4(s: &str, a: char, b: char, c: char, d: char) -> (r: bool)
    ensures
        r == (s@.len() >= 4 && s@.take(4) == seq![a, b, c, d]),
{
    let n = s.unicode_len();
    if n < 4 {
        return false;
    }
    let r = s.get_char(0) == a && s.get_char(1) == b && s.get_char(2) == c && s.get_char(3) == d;
    proof {
        if r {
            assert(s@.take(4) =~= seq![a, b, c, d]);
        } else {
            if s@.take(4) == seq![a, b, c, d] {
                assert(s@[0] == s@.take(4)[0]);
                assert(s@[1] == s@.take(4)[1]);
                assert(s@[2] == s@.take(4)[2]);
                assert(s@[3] == s@.take(4)[3]);
            }
        }
    }
    r
}

/// Finds the last space of `s`, as `last_space` names it.
fn find_last_space(s: &str) -> (r: Option<usize>)
    ensures
        match r {
            Some(i) => last_space(s@) == i as int,
            None => last_space(s@) == -1,
        },
{
    let n = s.unicode_len();
    assert(s@.take(n as int) =~= s@);
    let mut i: usize = n;
    while i > 0
        invariant
            0 <= i <= n,
            n == s@.len(),
            last_space(s@) == last_space(s@.take(i as int)),
        decreases i,
    {
        let c = s.get_char(i - 1);
        proof {
            assert(s@.take(i as int).last() == s@[i as int - 1]);
            assert(s@.take(i as int).drop_last() =~= s@.take(i as int - 1));
        }
        if c == ' ' {
            return Some(i - 1);
        }
        i = i - 1;
    }
    assert(s@.take(0) =~= Seq::<char>::empty());
    None
}

/// Classifies one transcript line, exactly as `spec_parse` lays the rules out.
pub fn parse_line(s: &str) -> (r: Result<Input, ParseInputError>)
    ensures
        match r {
            Ok(inp) => spec_parse(s@) == Some(inp@),
            Err(_) => spec_parse(s@) is None,
        },
{
    let n = s.unicode_len();
    if has_prefix4(s, '$', ' ', 'c', 'd') {
        proof {
            lemma_last_space_bounds(s@);
        }
        let start = match find_last_space(s) {
            Some(i) => i + 1,
            None => 0,
        };
        let target = s.substring_char(start, n);
        assert(target@ == last_token(s@));
        return Ok(Input::ChangeDirCmd { target: target.to_owned() });
    }
    if n == 4 && has_prefix4(s, '$', ' ', 'l', 's') {
        assert(s@ =~= ls_line());
        return Ok(Input::ListCmd);
    }
    assert(s@ != ls_line()) by {
        if s@ == ls_line() {
            assert(s@.take(4) =~= ls_line());
        }
    }
    if has_prefix4(s, 'd', 'i', 'r', ' ') {
        let name = s.substring_char(4, n);
        return Ok(Input::DirectoryEntry { name: name.to_owned() });
    }
    let size_end = find_char(s, ' ', 0);
    proof {
        lemma_token_end_bounds(s@, ' ', 0);
    }
    let size_tok = s.substring_char(0, size_end);
    assert(size_tok@ =~= s@.take(size_end as int));
    let size = match parse_usize(size_tok) {
        Some(v) => v,
        None => {
            return Err(ParseInputError);
        },
    };
    if size_end == n {
        return Err(ParseInputError);
    }
    let name_end = find_char(s, ' ', size_end + 1);
    proof {
        lemma_token_end_bounds(s@, ' ', size_end as int + 1);
    }
    let name = s.substring_char(size_end + 1, name_end);
    Ok(Input::FileEntry { name: name.to_owned(), size })
}

} // verus!

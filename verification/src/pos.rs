//! Line/column bookkeeping, specified once and shared by the scanner, the
//! lexer and the statements the library proves about token positions.
//!
//! Lines and columns are 1-based. Consuming a newline moves to the start of
//! the next line; consuming any other character moves one column to the right.

use vstd::prelude::*;

verus! {

/// A 1-based line/column pair, used in specifications only.
pub struct Pos {
    pub line: int,
    pub col: int,
}

/// The position of the very first character of any input: line 1, column 1.
pub open spec fn start_pos() -> Pos {
    Pos { line: 1, col: 1 }
}

/// The position reached from `p` after consuming the single character `ch`.
pub open spec fn step_pos(p: Pos, ch: char) -> Pos {
    if ch == '\n' {
        Pos { line: p.line + 1, col: 1 }
    } else {
        Pos { line: p.line, col: p.col + 1 }
    }
}

/// The position reached from `p` after consuming all of `s`, in order.
pub open spec fn advance_pos(p: Pos, s: Seq<char>) -> Pos
    decreases s.len(),
{
    if s.len() == 0 {
        p
    } else {
        step_pos(advance_pos(p, s.drop_last()), s.last())
    }
}

/// The position of the character at index `i` of `s`: the position reached
/// from line 1, column 1 after consuming the first `i` characters of `s`.
pub open spec fn pos_at(s: Seq<char>, i: int) -> Pos
    decreases i,
{
    if i <= 0 {
        start_pos()
    } else {
        step_pos(pos_at(s, i - 1), s[i - 1])
    }
}

/// Line and column are always at least 1, and each consumed character grows
/// at most one of the two counters, so both stay at most `i + 1`.
pub proof fn lemma_pos_at_bounds(s: Seq<char>, i: int)
    requires
        0 <= i,
    ensures
        1 <= pos_at(s, i).line <= i + 1,
        1 <= pos_at(s, i).col <= i + 1,
        pos_at(s, i).line + pos_at(s, i).col <= i + 2,
    decreases i,
{
    if i > 0 {
        lemma_pos_at_bounds(s, i - 1);
    }
}

/// Walking from index `i` to index `j` of `s` advances the position over
/// exactly the characters between the two indices.
pub proof fn lemma_pos_at_split(s: Seq<char>, i: int, j: int)
    requires
        0 <= i <= j <= s.len(),
    ensures
        pos_at(s, j) == advance_pos(pos_at(s, i), s.subrange(i, j)),
    decreases j - i,
{
    if i == j {
        assert(s.subrange(i, j) =~= Seq::<char>::empty());
    } else {
        lemma_pos_at_split(s, i, j - 1);
        assert(s.subrange(i, j).drop_last() =~= s.subrange(i, j - 1));
        assert(s.subrange(i, j).last() == s[j - 1]);
    }
}

} // verus!

//! Character-level cursor over the input text.
//!
//! The scanner owns the position bookkeeping (1-based line and column) and
//! the primitive character-matching operations every token rule composes
//! from. No operation panics: out-of-range access reports failure through
//! `Option`/`bool`/`Result`, leaving the cursor unchanged on failure, so that
//! callers can try several rules in sequence and backtrack for free.

use vstd::prelude::*;

use crate::error::LexError;
use crate::pos::{pos_at, lemma_pos_at_bounds, Pos};

verus! {

/// Whether the word `w` occurs in `s` starting exactly at index `i`.
pub open spec fn match_at(s: Seq<char>, i: int, w: Seq<char>) -> bool {
    &&& 0 <= i
    &&& i + w.len() <= s.len()
    &&& forall|k: int| 0 <= k < w.len() ==> s[i + k] == w[k]
}

/// The scanner as the specifications see it: the full character sequence,
/// how far the cursor has moved, and the current line/column.
pub struct ScannerView {
    pub chars: Seq<char>,
    pub cursor: int,
    pub line: int,
    pub col: int,
}

pub struct Scanner {
    pub cursor: usize,
    pub characters: Vec<char>,
    pub curr_line: usize,
    pub curr_col: usize,
}

impl View for Scanner {
    type V = ScannerView;

    open spec fn view(&self) -> ScannerView {
        ScannerView {
            chars: self.characters@,
            cursor: self.cursor as int,
            line: self.curr_line as int,
            col: self.curr_col as int,
        }
    }
}

impl Scanner {
    /// The cursor never runs past the end, and the stored line/column are
    /// exactly the position reached after the characters consumed so far.
    pub open spec fn wf(&self) -> bool {
        &&& 0 <= self@.cursor <= self@.chars.len()
        &&& self@.chars.len() < usize::MAX
        &&& Pos { line: self@.line, col: self@.col } == pos_at(self@.chars, self@.cursor)
    }

    /// The character at the cursor, in specifications.
    pub open spec fn spec_head(&self) -> char {
        self@.chars[self@.cursor]
    }

    /// Whether the cursor is at or past the end, in specifications.
    pub open spec fn spec_done(&self) -> bool {
        self@.cursor >= self@.chars.len()
    }

    pub fn new(string: &str) -> (scanner: Scanner)
        requires
            string@.len() < usize::MAX,
        ensures
            scanner.wf(),
            scanner@.chars == string@,
            scanner@.cursor == 0,
            scanner@.line == 1,
            scanner@.col == 1,
    {
        let n = string.unicode_len();
        let mut characters: Vec<char> = Vec::new();
        let mut k: usize = 0;
        while k < n
            invariant
                k <= n,
                n == string@.len(),
                characters@ =~= string@.take(k as int),
            decreases n - k,
        {
            characters.push(string.get_char(k));
            proof {
                assert(string@.take(k + 1 as int) =~= string@.take(k as int).push(string@[k as int]));
            }
            k += 1;
        }
        proof {
            assert(string@.take(n as int) =~= string@);
        }
        Scanner { cursor: 0, characters, curr_line: 1, curr_col: 1 }
    }

    /// Returns the current cursor. Useful for reporting errors.
    pub fn cursor(&self) -> (r: usize)
        ensures
            r as int == self@.cursor,
    {
        self.cursor
    }

    /// Returns the next character without advancing the cursor.
    /// AKA "lookahead"
    pub fn peek(&self) -> (r: Option<char>)
        requires
            self.wf(),
        ensures
            if self.spec_done() {
                r is None
            } else {
                r == Some(self.spec_head())
            },
    {
        if self.cursor < self.characters.len() {
            Some(self.characters[self.cursor])
        } else {
            None
        }
    }

    /// Returns true if further progress is not possible.
    pub fn is_done(&self) -> (r: bool)
        ensures
            r == self.spec_done(),
    {
        self.cursor >= self.characters.len()
    }

    /// Returns the next character (if available) and advances the cursor,
    /// moving to the next line when the consumed character is a newline.
    pub fn pop(&mut self) -> (r: Option<char>)
        requires
            old(self).wf(),
        ensures
            final(self).wf(),
            final(self)@.chars == old(self)@.chars,
            old(self).spec_done() ==> r is None && *final(self) == *old(self),
            !old(self).spec_done() ==> {
                &&& r == Some(old(self).spec_head())
                &&& final(self)@.cursor == old(self)@.cursor + 1
            },
    {
        if self.cursor < self.characters.len() {
            let character = self.characters[self.cursor];
            proof {
                lemma_pos_at_bounds(self@.chars, self@.cursor);
            }
            if character == '\n' {
                self.curr_line += 1;
                self.curr_col = 1;
            } else {
                self.curr_col += 1;
            }
            self.cursor += 1;
            Some(character)
        } else {
            None
        }
    }

    /// Returns the next character if it lies in the inclusive range
    /// `lo..=hi`, and advances the cursor. Otherwise, returns None, leaving
    /// the cursor unchanged.
    pub fn pop_in_range(&mut self, lo: char, hi: char) -> (r: Option<char>)
        requires
            old(self).wf(),
        ensures
            final(self).wf(),
            final(self)@.chars == old(self)@.chars,
            if !old(self).spec_done() && lo <= old(self).spec_head() <= hi {
                &&& r == Some(old(self).spec_head())
                &&& final(self)@.cursor == old(self)@.cursor + 1
            } else {
                &&& r is None
                &&& *final(self) == *old(self)
            },
    {
        match self.peek() {
            Some(ch) => {
                if lo <= ch && ch <= hi {
                    self.pop();
                    Some(ch)
                } else {
                    None
                }
            }
            None => None,
        }
    }

    /// Returns the next character if it occurs in the given slice, and
    /// advances the cursor. Otherwise, returns None, leaving the cursor
    /// unchanged.
    pub fn pop_in_slice(&mut self, range_slice: &[char]) -> (r: Option<char>)
        requires
            old(self).wf(),
        ensures
            final(self).wf(),
            final(self)@.chars == old(self)@.chars,
            if !old(self).spec_done() && range_slice@.contains(old(self).spec_head()) {
                &&& r == Some(old(self).spec_head())
                &&& final(self)@.cursor == old(self)@.cursor + 1
            } else {
                &&& r is None
                &&& *final(self) == *old(self)
            },
    {
        match self.peek() {
            Some(ch) => {
                let mut k: usize = 0;
                let mut found = false;
                while k < range_slice.len() && !found
                    invariant
                        k <= range_slice@.len(),
                        found ==> k > 0 && range_slice@[k - 1] == ch,
                        !found ==> forall|j: int| 0 <= j < k ==> range_slice@[j] != ch,
                    decreases range_slice@.len() - k + (if found { 0int } else { 1int }),
                {
                    if range_slice[k] == ch {
                        found = true;
                    }
                    k += 1;
                }
                if found {
                    self.pop();
                    Some(ch)
                } else {
                    assert(!range_slice@.contains(ch));
                    None
                }
            }
            None => None,
        }
    }

    /// Returns true if the `target` is found at the current cursor position,
    /// and advances the cursor.
    /// Otherwise, returns false, leaving the cursor unchanged.
    pub fn take(&mut self, target: &char) -> (r: bool)
        requires
            old(self).wf(),
        ensures
            final(self).wf(),
            final(self)@.chars == old(self)@.chars,
            r == (!old(self).spec_done() && old(self).spec_head() == *target),
            r ==> final(self)@.cursor == old(self)@.cursor + 1,
            !r ==> *final(self) == *old(self),
    {
        match self.peek() {
            Some(character) => {
                if *target == character {
                    self.pop();
                    true
                } else {
                    false
                }
            }
            None => false,
        }
    }

    /// Returns Ok(()) if the `target` is found at the current cursor
    /// position, and advances the cursor.
    /// Otherwise, returns the expected character as an error, leaving the
    /// cursor unchanged.
    pub fn expect(&mut self, target: &char) -> (r: Result<(), LexError>)
        requires
            old(self).wf(),
        ensures
            final(self).wf(),
            final(self)@.chars == old(self)@.chars,
            if !old(self).spec_done() && old(self).spec_head() == *target {
                &&& r is Ok
                &&& final(self)@.cursor == old(self)@.cursor + 1
            } else {
                &&& r == Err::<(), LexError>(LexError::Expected(*target))
                &&& *final(self) == *old(self)
            },
    {
        if self.take(target) {
            Ok(())
        } else {
            Err(LexError::Expected(*target))
        }
    }

    /// Attempts to match the entire `target` string starting at the cursor.
    /// On success, consumes exactly its characters, updating line/column per
    /// character via the same rules as `pop`, and returns true. If the
    /// remaining input is shorter than `target` or any character mismatches,
    /// the cursor is left completely unchanged and false is returned, so
    /// that callers trying several literals in sequence can backtrack for
    /// free.
    pub fn take_str(&mut self, target: &str) -> (r: bool)
        requires
            old(self).wf(),
        ensures
            final(self).wf(),
            final(self)@.chars == old(self)@.chars,
            r == match_at(old(self)@.chars, old(self)@.cursor, target@),
            r ==> final(self)@.cursor == old(self)@.cursor + target@.len(),
            !r ==> *final(self) == *old(self),
    {
        let n = target.unicode_len();
        if self.characters.len() - self.cursor < n {
            return false;
        }
        let mut ind: usize = 0;
        while ind < n
            invariant
                ind <= n,
                n == target@.len(),
                self.wf(),
                self@.cursor + n <= self@.chars.len(),
                forall|k: int| 0 <= k < ind ==> self@.chars[self@.cursor + k] == target@[k],
            decreases n - ind,
        {
            if self.characters[self.cursor + ind] != target.get_char(ind) {
                return false;
            }
            ind += 1;
        }
        let ghost orig = *self;
        let mut consumed: usize = 0;
        while consumed < n
            invariant
                consumed <= n,
                n == target@.len(),
                self.wf(),
                self@.chars == orig@.chars,
                orig@.cursor + n <= orig@.chars.len(),
                self@.cursor == orig@.cursor + consumed,
                forall|k: int| 0 <= k < n ==> orig@.chars[orig@.cursor + k] == target@[k],
            decreases n - consumed,
        {
            self.pop();
            consumed += 1;
        }
        true
    }

    /// Invoke `cb` once on the character at the cursor. If the result is not
    /// `None`, return it and advance the cursor. Otherwise, return None and
    /// leave the cursor unchanged. At end of input, `cb` is not invoked.
    pub fn transform<T, F: FnOnce(&char) -> Option<T>>(&mut self, cb: F) -> (r: Option<T>)
        requires
            old(self).wf(),
            !old(self).spec_done() ==> call_requires(cb, (&old(self).spec_head(),)),
        ensures
            final(self).wf(),
            final(self)@.chars == old(self)@.chars,
            old(self).spec_done() ==> r is None && *final(self) == *old(self),
            !old(self).spec_done() ==> {
                &&& call_ensures(cb, (&old(self).spec_head(),), r)
                &&& r is Some ==> final(self)@.cursor == old(self)@.cursor + 1
                &&& r is None ==> *final(self) == *old(self)
            },
    {
        if self.cursor < self.characters.len() {
            let input = self.characters[self.cursor];
            match cb(&input) {
                Some(output) => {
                    self.pop();
                    Some(output)
                }
                None => None,
            }
        } else {
            None
        }
    }
}

} // verus!

//! The lexer: converts the full input into an ordered sequence of positioned
//! tokens, or fails with a lexical error.
//!
//! An ordered list of token-recognizer rules is tried at each scanner
//! position; the first rule that succeeds produces one token and the scan
//! restarts at the new cursor position. Order matters: the modifier-keyword
//! rule must run before the general identifier rule, or `ctrl` would be
//! lexed as a plain identifier. Whitespace tokens are recognized (to consume
//! their characters) but dropped from the emitted sequence. If no rule
//! matches before the end of the input, lexing fails with
//! `LexError::RemainingInput`.
//!
//! The one subtle algorithm is the position correction: rules stamp each
//! token with the scanner's position *after* its characters, so a single
//! corrective pass afterwards shifts the recorded positions back by one
//! token slot, starting from line 1, column 1.
//!
//! The module's specification mirrors the rule list: `rule_match` gives the
//! first rule that matches at an index, and `scan` gives the kept token
//! occurrences of the whole input together with the position where the scan
//! got stuck, if any.

use vstd::prelude::*;

use crate::error::LexError;
use crate::pos::{advance_pos, lemma_pos_at_split, pos_at, start_pos, Pos};
use crate::scanner::{match_at, Scanner};
use crate::token::{Mod, Token, TokenKind, TokenKindView};

verus! {

/// The characters a whitespace token is made of.
pub open spec fn is_space(c: char) -> bool {
    c == ' ' || c == '\t'
}

/// The characters an identifier is made of: ASCII letters.
pub open spec fn is_letter(c: char) -> bool {
    ('a' <= c && c <= 'z') || ('A' <= c && c <= 'Z')
}

/// The characters some token rule can consume.
pub open spec fn is_allowed_char(c: char) -> bool {
    is_letter(c) || is_space(c) || c == '\n' || c == '+'
}

pub open spec fn word_ctrl() -> Seq<char> {
    seq!['c', 't', 'r', 'l']
}

pub open spec fn word_shift() -> Seq<char> {
    seq!['s', 'h', 'i', 'f', 't']
}

pub open spec fn word_alt() -> Seq<char> {
    seq!['a', 'l', 't']
}

pub open spec fn word_map() -> Seq<char> {
    seq!['m', 'a', 'p']
}

pub open spec fn word_plus() -> Seq<char> {
    seq!['+']
}

/// The index just past the run of spaces/tabs that starts at `i`.
pub open spec fn space_run_end(s: Seq<char>, i: int) -> int
    decreases s.len() - i,
    when 0 <= i <= s.len()
{
    if i < s.len() && is_space(s[i]) {
        space_run_end(s, i + 1)
    } else {
        i
    }
}

/// The index just past the run of ASCII letters that starts at `i`.
pub open spec fn letter_run_end(s: Seq<char>, i: int) -> int
    decreases s.len() - i,
    when 0 <= i <= s.len()
{
    if i < s.len() && is_letter(s[i]) {
        letter_run_end(s, i + 1)
    } else {
        i
    }
}

pub proof fn lemma_space_run(s: Seq<char>, i: int)
    requires
        0 <= i <= s.len(),
    ensures
        i <= space_run_end(s, i) <= s.len(),
        forall|k: int| i <= k < space_run_end(s, i) ==> is_space(s[k]),
        space_run_end(s, i) == s.len() || !is_space(s[space_run_end(s, i)]),
    decreases s.len() - i,
{
    if i < s.len() && is_space(s[i]) {
        lemma_space_run(s, i + 1);
    }
}

/// The run end is the unique index `c` at or after `i` with only spaces
/// before it and no space at it.
pub proof fn lemma_space_run_is(s: Seq<char>, i: int, c: int)
    requires
        0 <= i <= c <= s.len(),
        forall|k: int| i <= k < c ==> is_space(s[k]),
        c == s.len() || !is_space(s[c]),
    ensures
        space_run_end(s, i) == c,
    decreases s.len() - i,
{
    if i < s.len() && is_space(s[i]) {
        lemma_space_run_is(s, i + 1, c);
    }
}

pub proof fn lemma_letter_run(s: Seq<char>, i: int)
    requires
        0 <= i <= s.len(),
    ensures
        i <= letter_run_end(s, i) <= s.len(),
        forall|k: int| i <= k < letter_run_end(s, i) ==> is_letter(s[k]),
        letter_run_end(s, i) == s.len() || !is_letter(s[letter_run_end(s, i)]),
    decreases s.len() - i,
{
    if i < s.len() && is_letter(s[i]) {
        lemma_letter_run(s, i + 1);
    }
}

/// The run end is the unique index `c` at or after `i` with only letters
/// before it and no letter at it.
pub proof fn lemma_letter_run_is(s: Seq<char>, i: int, c: int)
    requires
        0 <= i <= c <= s.len(),
        forall|k: int| i <= k < c ==> is_letter(s[k]),
        c == s.len() || !is_letter(s[c]),
    ensures
        letter_run_end(s, i) == c,
    decreases s.len() - i,
{
    if i < s.len() && is_letter(s[i]) {
        lemma_letter_run_is(s, i + 1, c);
    }
}

/// One token occurrence in the scan of the input: its classification and
/// the index range `[start, end)` of the characters it is made of.
pub struct ScanUnit {
    pub kind: TokenKindView,
    pub start: int,
    pub end: int,
}

/// The first token rule that matches at index `i` of `s`, in the canonical
/// rule order: modifier keywords, newline, whitespace, the literal keywords
/// `map` and `+`, and finally the general identifier rule.
pub open spec fn rule_match(s: Seq<char>, i: int) -> Option<ScanUnit> {
    if match_at(s, i, word_ctrl()) {
        Some(ScanUnit { kind: TokenKindView::Mod(Mod::Ctrl), start: i, end: i + 4 })
    } else if match_at(s, i, word_shift()) {
        Some(ScanUnit { kind: TokenKindView::Mod(Mod::Shift), start: i, end: i + 5 })
    } else if match_at(s, i, word_alt()) {
        Some(ScanUnit { kind: TokenKindView::Mod(Mod::Alt), start: i, end: i + 3 })
    } else if 0 <= i < s.len() && s[i] == '\n' {
        Some(ScanUnit { kind: TokenKindView::Newline, start: i, end: i + 1 })
    } else if 0 <= i < s.len() && is_space(s[i]) {
        Some(ScanUnit { kind: TokenKindView::Whitespace, start: i, end: space_run_end(s, i) })
    } else if match_at(s, i, word_map()) {
        Some(ScanUnit { kind: TokenKindView::Phrase(word_map()), start: i, end: i + 3 })
    } else if match_at(s, i, word_plus()) {
        Some(ScanUnit { kind: TokenKindView::Phrase(word_plus()), start: i, end: i + 1 })
    } else if 0 <= i < s.len() && is_letter(s[i]) {
        Some(
            ScanUnit {
                kind: TokenKindView::Id(s.subrange(i, letter_run_end(s, i))),
                start: i,
                end: letter_run_end(s, i),
            },
        )
    } else {
        None
    }
}

/// Every rule consumes at least one character and only characters of the
/// allowed classes; some rule matches exactly at the allowed characters.
pub proof fn lemma_rule_match(s: Seq<char>, i: int)
    requires
        0 <= i <= s.len(),
    ensures
        i == s.len() ==> rule_match(s, i) is None,
        i < s.len() ==> (rule_match(s, i) is Some <==> is_allowed_char(s[i])),
        rule_match(s, i) matches Some(u) ==> {
            &&& u.start == i
            &&& i < u.end <= s.len()
            &&& forall|k: int| i <= k < u.end ==> is_allowed_char(s[k])
        },
{
    lemma_space_run(s, i);
    lemma_letter_run(s, i);
    if i < s.len() && is_space(s[i]) {
        assert(space_run_end(s, i) == space_run_end(s, i + 1));
    }
    if i < s.len() && is_letter(s[i]) {
        assert(letter_run_end(s, i) == letter_run_end(s, i + 1));
    }
    assert(word_ctrl()[0] == 'c' && word_ctrl()[1] == 't' && word_ctrl()[2] == 'r' && word_ctrl()[3]
        == 'l');
    assert(word_shift()[0] == 's' && word_shift()[1] == 'h' && word_shift()[2] == 'i'
        && word_shift()[3] == 'f' && word_shift()[4] == 't');
    assert(word_alt()[0] == 'a' && word_alt()[1] == 'l' && word_alt()[2] == 't');
    assert(word_map()[0] == 'm' && word_map()[1] == 'a' && word_map()[2] == 'p');
    assert(word_plus()[0] == '+');
    if i < s.len() && s[i] == '+' {
        assert forall|k: int| 0 <= k < word_plus().len() implies s[i + k] == word_plus()[k] by {
            assert(k == 0);
            assert(s[i + 0] == s[i]);
        }
        assert(match_at(s, i, word_plus()));
    }
    if match_at(s, i, word_ctrl()) {
        assert forall|k: int| i <= k < i + 4 implies is_allowed_char(s[k]) by {
            assert(s[i + (k - i)] == word_ctrl()[k - i]);
        }
        assert(s[i + 0] == 'c');
    } else if match_at(s, i, word_shift()) {
        assert forall|k: int| i <= k < i + 5 implies is_allowed_char(s[k]) by {
            assert(s[i + (k - i)] == word_shift()[k - i]);
        }
        assert(s[i + 0] == 's');
    } else if match_at(s, i, word_alt()) {
        assert forall|k: int| i <= k < i + 3 implies is_allowed_char(s[k]) by {
            assert(s[i + (k - i)] == word_alt()[k - i]);
        }
        assert(s[i + 0] == 'a');
    } else if match_at(s, i, word_map()) {
        assert forall|k: int| i <= k < i + 3 implies is_allowed_char(s[k]) by {
            assert(s[i + (k - i)] == word_map()[k - i]);
        }
        assert(s[i + 0] == 'm');
    }
}

/// The scan of `s` from index `i` to the end: the token occurrences
/// produced by repeatedly applying the first matching rule, whitespace
/// dropped, and the index at which no rule matched, if the scan got stuck
/// before the end of the input.
pub struct ScanResult {
    pub units: Seq<ScanUnit>,
    pub stuck: Option<int>,
}

pub open spec fn scan(s: Seq<char>, i: int) -> ScanResult
    decreases s.len() - i,
    when 0 <= i <= s.len()
    via scan_decreases
{
    if i >= s.len() {
        ScanResult { units: Seq::empty(), stuck: None }
    } else {
        match rule_match(s, i) {
            None => ScanResult { units: Seq::empty(), stuck: Some(i) },
            Some(u) => {
                let rest = scan(s, u.end);
                ScanResult {
                    units: if u.kind is Whitespace {
                        rest.units
                    } else {
                        seq![u] + rest.units
                    },
                    stuck: rest.stuck,
                }
            }
        }
    }
}

#[via_fn]
proof fn scan_decreases(s: Seq<char>, i: int) {
    lemma_rule_match(s, i);
}

/// The position recorded on the `j`-th emitted token after the corrective
/// shift: line 1/column 1 for the first token, and the position stamped on
/// the previous kept token (the position just past its characters) for
/// every later one.
pub open spec fn emitted_pos(s: Seq<char>, units: Seq<ScanUnit>, j: int) -> Pos {
    if j == 0 {
        start_pos()
    } else {
        pos_at(s, units[j - 1].end)
    }
}

/// `t` carries classification `kind` and the position just past index `e`,
/// as a rule stamps it.
pub open spec fn stamped(t: Token, s: Seq<char>, e: int, kind: TokenKindView) -> bool {
    &&& t.kind@ == kind
    &&& Pos { line: t.line as int, col: t.col as int } == pos_at(s, e)
}

/// `t` is the `j`-th emitted token: it carries the `j`-th kept
/// classification and the corrected position.
pub open spec fn emitted(t: Token, s: Seq<char>, units: Seq<ScanUnit>, j: int) -> bool {
    &&& t.kind@ == units[j].kind
    &&& Pos { line: t.line as int, col: t.col as int } == emitted_pos(s, units, j)
}

/// Relies on String::push: appends the single character `c` at the end of
/// the string.
#[verifier::external_body]
fn push_char(buf: &mut String, c: char)
    ensures
        final(buf)@ == old(buf)@.push(c),
{
    buf.push(c);
}

/// Recognizes one of the modifier keywords `ctrl`, `shift`, `alt`.
pub fn lex_mod(scanner: &mut Scanner) -> (r: Result<Token, LexError>)
    requires
        old(scanner).wf(),
    ensures
        final(scanner).wf(),
        final(scanner)@.chars == old(scanner)@.chars,
        ({
            let s = old(scanner)@.chars;
            let i = old(scanner)@.cursor;
            if match_at(s, i, word_ctrl()) {
                &&& r matches Ok(t) && stamped(t, s, i + 4, TokenKindView::Mod(Mod::Ctrl))
                &&& final(scanner)@.cursor == i + 4
            } else if match_at(s, i, word_shift()) {
                &&& r matches Ok(t) && stamped(t, s, i + 5, TokenKindView::Mod(Mod::Shift))
                &&& final(scanner)@.cursor == i + 5
            } else if match_at(s, i, word_alt()) {
                &&& r matches Ok(t) && stamped(t, s, i + 3, TokenKindView::Mod(Mod::Alt))
                &&& final(scanner)@.cursor == i + 3
            } else {
                &&& r matches Err(e) && e is ExpectedMod
                &&& *final(scanner) == *old(scanner)
            }
        }),
{
    proof {
        reveal_strlit("ctrl");
        reveal_strlit("shift");
        reveal_strlit("alt");
        assert("ctrl"@ =~= word_ctrl());
        assert("shift"@ =~= word_shift());
        assert("alt"@ =~= word_alt());
    }
    if scanner.take_str("ctrl") {
        Ok(Token::new(scanner, TokenKind::Mod(Mod::Ctrl)))
    } else if scanner.take_str("shift") {
        Ok(Token::new(scanner, TokenKind::Mod(Mod::Shift)))
    } else if scanner.take_str("alt") {
        Ok(Token::new(scanner, TokenKind::Mod(Mod::Alt)))
    } else {
        Err(LexError::ExpectedMod)
    }
}

/// Recognizes a single `\n`.
pub fn lex_newline(scanner: &mut Scanner) -> (r: Result<Token, LexError>)
    requires
        old(scanner).wf(),
    ensures
        final(scanner).wf(),
        final(scanner)@.chars == old(scanner)@.chars,
        ({
            let s = old(scanner)@.chars;
            let i = old(scanner)@.cursor;
            if i < s.len() && s[i] == '\n' {
                &&& r matches Ok(t) && stamped(t, s, i + 1, TokenKindView::Newline)
                &&& final(scanner)@.cursor == i + 1
            } else {
                &&& r matches Err(e) && e == LexError::Expected('\n')
                &&& *final(scanner) == *old(scanner)
            }
        }),
{
    if scanner.take(&'\n') {
        Ok(Token::new(scanner, TokenKind::Newline))
    } else {
        Err(LexError::Expected('\n'))
    }
}

/// Recognizes a run of one or more spaces/tabs, collapsed into a single
/// whitespace token.
pub fn lex_whitespace(scanner: &mut Scanner) -> (r: Result<Token, LexError>)
    requires
        old(scanner).wf(),
    ensures
        final(scanner).wf(),
        final(scanner)@.chars == old(scanner)@.chars,
        ({
            let s = old(scanner)@.chars;
            let i = old(scanner)@.cursor;
            if i < s.len() && is_space(s[i]) {
                &&& r matches Ok(t) && stamped(t, s, space_run_end(s, i), TokenKindView::Whitespace)
                &&& final(scanner)@.cursor == space_run_end(s, i)
            } else {
                &&& r matches Err(e) && e is ExpectedWhitespace
                &&& *final(scanner) == *old(scanner)
            }
        }),
{
    let ghost s = old(scanner)@.chars;
    let ghost i0 = old(scanner)@.cursor;
    let mut spaces: Vec<char> = Vec::new();
    spaces.push(' ');
    spaces.push('\t');
    proof {
        assert(spaces@.len() == 2 && spaces@[0] == ' ' && spaces@[1] == '\t');
    }
    let mut was_whitespace = false;
    loop
        invariant_except_break
            scanner.wf(),
            scanner@.chars == s,
            spaces@.len() == 2 && spaces@[0] == ' ' && spaces@[1] == '\t',
            0 <= i0 <= scanner@.cursor <= s.len(),
            was_whitespace == (scanner@.cursor > i0),
            scanner@.cursor == i0 ==> *scanner == *old(scanner),
            forall|k: int| i0 <= k < scanner@.cursor ==> is_space(s[k]),
        ensures
            scanner.wf(),
            scanner@.chars == s,
            0 <= i0 <= scanner@.cursor <= s.len(),
            was_whitespace == (scanner@.cursor > i0),
            scanner@.cursor == i0 ==> *scanner == *old(scanner),
            forall|k: int| i0 <= k < scanner@.cursor ==> is_space(s[k]),
            scanner@.cursor == s.len() || !is_space(s[scanner@.cursor]),
        decreases s.len() - scanner@.cursor,
    {
        match scanner.pop_in_slice(spaces.as_slice()) {
            Some(_ch) => {
                was_whitespace = true;
            }
            None => {
                break;
            }
        }
    }
    if was_whitespace {
        proof {
            lemma_space_run_is(s, i0, scanner@.cursor);
        }
        Ok(Token::new(scanner, TokenKind::Whitespace))
    } else {
        Err(LexError::ExpectedWhitespace)
    }
}

/// Recognizes one fixed keyword string, such as `map` or `+`.
pub fn lex_phrase(scanner: &mut Scanner, phrase: &'static str) -> (r: Result<Token, LexError>)
    requires
        old(scanner).wf(),
    ensures
        final(scanner).wf(),
        final(scanner)@.chars == old(scanner)@.chars,
        ({
            let s = old(scanner)@.chars;
            let i = old(scanner)@.cursor;
            if match_at(s, i, phrase@) {
                &&& r matches Ok(t) && stamped(
                    t,
                    s,
                    i + phrase@.len(),
                    TokenKindView::Phrase(phrase@),
                )
                &&& final(scanner)@.cursor == i + phrase@.len()
            } else {
                &&& r matches Err(e) && e matches LexError::ExpectedPhrase(p) && p@ == phrase@
                &&& *final(scanner) == *old(scanner)
            }
        }),
{
    if scanner.take_str(phrase) {
        Ok(Token::new(scanner, TokenKind::Phrase(phrase)))
    } else {
        Err(LexError::ExpectedPhrase(phrase))
    }
}

/// Recognizes a run of one or more ASCII letters as an identifier.
pub fn lex_id(scanner: &mut Scanner) -> (r: Result<Token, LexError>)
    requires
        old(scanner).wf(),
    ensures
        final(scanner).wf(),
        final(scanner)@.chars == old(scanner)@.chars,
        ({
            let s = old(scanner)@.chars;
            let i = old(scanner)@.cursor;
            if i < s.len() && is_letter(s[i]) {
                &&& r matches Ok(t) && stamped(
                    t,
                    s,
                    letter_run_end(s, i),
                    TokenKindView::Id(s.subrange(i, letter_run_end(s, i))),
                )
                &&& final(scanner)@.cursor == letter_run_end(s, i)
            } else {
                &&& r matches Err(e) && e is ExpectedId
                &&& *final(scanner) == *old(scanner)
            }
        }),
{
    let ghost s = old(scanner)@.chars;
    let ghost i0 = old(scanner)@.cursor;
    let mut buf = String::new();
    loop
        invariant_except_break
            scanner.wf(),
            scanner@.chars == s,
            0 <= i0 <= scanner@.cursor <= s.len(),
            buf@ == s.subrange(i0, scanner@.cursor),
            scanner@.cursor == i0 ==> *scanner == *old(scanner),
            forall|k: int| i0 <= k < scanner@.cursor ==> is_letter(s[k]),
        ensures
            scanner.wf(),
            scanner@.chars == s,
            0 <= i0 <= scanner@.cursor <= s.len(),
            buf@ == s.subrange(i0, scanner@.cursor),
            scanner@.cursor == i0 ==> *scanner == *old(scanner),
            forall|k: int| i0 <= k < scanner@.cursor ==> is_letter(s[k]),
            scanner@.cursor == s.len() || !is_letter(s[scanner@.cursor]),
        decreases s.len() - scanner@.cursor,
    {
        proof {
            if scanner@.cursor < s.len() {
                assert(s.subrange(i0, scanner@.cursor + 1) =~= s.subrange(
                    i0,
                    scanner@.cursor,
                ).push(s[scanner@.cursor]));
            }
        }
        let lowercase = scanner.pop_in_range('a', 'z');
        if let Some(letter) = lowercase {
            push_char(&mut buf, letter);
            continue;
        }
        let uppercase = scanner.pop_in_range('A', 'Z');
        if let Some(letter) = uppercase {
            push_char(&mut buf, letter);
            continue;
        }
        break;
    }
    if buf.as_str().is_empty() {
        Err(LexError::ExpectedId)
    } else {
        proof {
            lemma_letter_run_is(s, i0, scanner@.cursor);
        }
        Ok(Token::new(scanner, TokenKind::Id(buf)))
    }
}

/// A successful lexing of `s` emits one token per kept scan unit, each
/// carrying the unit's classification and the corrected position.
pub open spec fn lex_output_ok(tokens: Seq<Token>, s: Seq<char>, units: Seq<ScanUnit>) -> bool {
    &&& tokens.len() == units.len()
    &&& forall|j: int| 0 <= j < tokens.len() ==> emitted(#[trigger] tokens[j], s, units, j)
}

/// The token prefix a failed lexing makes available: one token per kept
/// scan unit, still carrying the uncorrected stamp (the position just past
/// the unit's characters).
pub open spec fn lex_prefix(tokens: Seq<Token>, s: Seq<char>, units: Seq<ScanUnit>) -> bool {
    &&& tokens.len() == units.len()
    &&& forall|j: int|
        0 <= j < tokens.len() ==> stamped(#[trigger] tokens[j], s, units[j].end, units[j].kind)
}

/// Applying the first matching rule at `cur` extends the emitted prefix by
/// one unit (or by none, for whitespace) and leaves the stuck position of
/// the rest of the scan unchanged.
proof fn lemma_scan_step(s: Seq<char>, cur: int, units: Seq<ScanUnit>, m: int)
    requires
        0 <= cur < s.len(),
        rule_match(s, cur) is Some,
        0 <= m <= units.len(),
        units.skip(m) == scan(s, cur).units,
    ensures
        ({
            let u = rule_match(s, cur).unwrap();
            &&& cur < u.end <= s.len()
            &&& !(u.kind is Whitespace) ==> {
                &&& m < units.len()
                &&& units[m] == u
                &&& units.skip(m + 1) == scan(s, u.end).units
            }
            &&& u.kind is Whitespace ==> units.skip(m) == scan(s, u.end).units
            &&& scan(s, cur).stuck == scan(s, u.end).stuck
        }),
{
    lemma_rule_match(s, cur);
    let u = rule_match(s, cur).unwrap();
    if u.kind is Whitespace {
        assert(scan(s, cur).units == scan(s, u.end).units);
    } else {
        assert(scan(s, cur).units == seq![u] + scan(s, u.end).units);
        assert(units.skip(m).len() == units.len() - m);
        assert(units[m] == units.skip(m)[0]);
        assert(units.skip(m)[0] == (seq![u] + scan(s, u.end).units)[0]);
        assert(units.skip(m + 1) =~= scan(s, u.end).units) by {
            assert forall|j: int|
                0 <= j < units.len() - (m + 1) implies units.skip(m + 1)[j] == scan(
                s,
                u.end,
            ).units[j] by {
                assert(units.skip(m + 1)[j] == units[m + 1 + j]);
                assert(units[m + 1 + j] == units.skip(m)[1 + j]);
                assert(units.skip(m)[1 + j] == (seq![u] + scan(s, u.end).units)[1 + j]);
            }
        }
    }
}

/// Lexes the scanner's remaining input to a token sequence.
///
/// At each position the rules are tried in order and the first success
/// produces one token; whitespace tokens are dropped. If no rule matches
/// before the end of the input, the result is `LexError::RemainingInput`
/// carrying the (still uncorrected) tokens collected so far, and the
/// scanner is left at the offending position. On success, the corrective
/// pass has shifted every recorded position back by one token slot, so the
/// first token is recorded at line 1, column 1 and each later token at the
/// position stamped on the token before it.
pub fn lex(scanner: &mut Scanner) -> (r: Result<Vec<Token>, LexError>)
    requires
        old(scanner).wf(),
    ensures
        final(scanner).wf(),
        final(scanner)@.chars == old(scanner)@.chars,
        ({
            let s = old(scanner)@.chars;
            let result = scan(s, old(scanner)@.cursor);
            match r {
                Ok(tokens) => {
                    &&& result.stuck is None
                    &&& final(scanner)@.cursor == s.len()
                    &&& lex_output_ok(tokens@, s, result.units)
                },
                Err(e) => {
                    &&& result.stuck matches Some(p) && final(scanner)@.cursor == p
                    &&& e matches LexError::RemainingInput(prefix) && lex_prefix(
                        prefix@,
                        s,
                        result.units,
                    )
                },
            }
        }),
{
    proof {
        reveal_strlit("map");
        reveal_strlit("+");
        assert("map"@ =~= word_map());
        assert("+"@ =~= word_plus());
    }
    let ghost s = old(scanner)@.chars;
    let ghost i0 = old(scanner)@.cursor;
    let ghost full = scan(s, i0);
    let mut tokens: Vec<Token> = Vec::new();
    proof {
        assert(full.units.skip(0) =~= full.units);
    }
    while !scanner.is_done()
        invariant
            scanner.wf(),
            scanner@.chars == s,
            s == old(scanner)@.chars,
            i0 == old(scanner)@.cursor,
            0 <= i0 <= scanner@.cursor <= s.len(),
            full == scan(s, i0),
            tokens@.len() <= full.units.len(),
            forall|j: int|
                0 <= j < tokens@.len() ==> stamped(
                    #[trigger] tokens@[j],
                    s,
                    full.units[j].end,
                    full.units[j].kind,
                ),
            scan(s, scanner@.cursor).units == full.units.skip(tokens@.len() as int),
            scan(s, scanner@.cursor).stuck == full.stuck,
            "map"@ == word_map(),
            "+"@ == word_plus(),
        decreases s.len() - scanner@.cursor,
    {
        let ghost cur = scanner@.cursor;
        let ghost m = tokens@.len() as int;
        proof {
            lemma_rule_match(s, cur);
        }
        match lex_mod(scanner) {
            Ok(token) => {
                proof {
                    lemma_scan_step(s, cur, full.units, m);
                }
                tokens.push(token);
            }
            Err(_) => match lex_newline(scanner) {
                Ok(token) => {
                    proof {
                        lemma_scan_step(s, cur, full.units, m);
                    }
                    tokens.push(token);
                }
                Err(_) => match lex_whitespace(scanner) {
                    Ok(_token) => {
                        // Whitespace is recognized to consume its characters, but
                        // carries no syntactic meaning: it is not emitted.
                        proof {
                            lemma_scan_step(s, cur, full.units, m);
                        }
                    }
                    Err(_) => match lex_phrase(scanner, "map") {
                        Ok(token) => {
                            proof {
                                lemma_scan_step(s, cur, full.units, m);
                            }
                            tokens.push(token);
                        }
                        Err(_) => match lex_phrase(scanner, "+") {
                            Ok(token) => {
                                proof {
                                    lemma_scan_step(s, cur, full.units, m);
                                }
                                tokens.push(token);
                            }
                            Err(_) => match lex_id(scanner) {
                                Ok(token) => {
                                    proof {
                                        lemma_scan_step(s, cur, full.units, m);
                                    }
                                    tokens.push(token);
                                }
                                Err(_) => {
                                    // No rule matched: fatal. The tokens collected so
                                    // far ride along for diagnostics.
                                    proof {
                                        assert(rule_match(s, cur) is None);
                                        assert(full.units.skip(m).len() == 0);
                                    }
                                    return Err(LexError::RemainingInput(tokens));
                                }
                            },
                        },
                    },
                },
            },
        }
    }
    // Move the line and column numbers "back" for each token, so that they
    // contain their starting positions rather than their ending positions:
    // each token takes over the position stamped on the one before it, and
    // the first starts from line 1, column 1. Walking backward lets each
    // rebuilt token take ownership of its kind.
    let ghost orig = tokens@;
    let ghost n = orig.len() as int;
    proof {
        assert(full.units.skip(n).len() == 0);
        assert(orig.take(n) =~= orig);
    }
    let mut rev: Vec<Token> = Vec::new();
    while tokens.len() > 0
        invariant
            n == orig.len() == full.units.len(),
            tokens@ == orig.take(tokens@.len() as int),
            tokens@.len() + rev@.len() == n,
            forall|j: int|
                0 <= j < n ==> stamped(
                    #[trigger] orig[j],
                    s,
                    full.units[j].end,
                    full.units[j].kind,
                ),
            forall|j: int|
                0 <= j < rev@.len() ==> emitted(#[trigger] rev@[j], s, full.units, n - 1 - j),
        decreases tokens@.len(),
    {
        let ghost m = tokens@.len() as int;
        proof {
            assert(tokens@[m - 1] == orig[m - 1]);
            assert(orig.take(m).take(m - 1) =~= orig.take(m - 1));
        }
        let t = tokens.pop().unwrap();
        let line: usize;
        let col: usize;
        if tokens.len() > 0 {
            let prev = &tokens[tokens.len() - 1];
            line = prev.line;
            col = prev.col;
            proof {
                assert(tokens@[m - 2] == orig[m - 2]);
            }
        } else {
            line = 1;
            col = 1;
        }
        rev.push(Token { line, col, kind: t.kind });
    }
    let mut out: Vec<Token> = Vec::new();
    while rev.len() > 0
        invariant
            n == full.units.len(),
            out@.len() + rev@.len() == n,
            forall|j: int|
                0 <= j < rev@.len() ==> emitted(#[trigger] rev@[j], s, full.units, n - 1 - j),
            forall|j: int| 0 <= j < out@.len() ==> emitted(#[trigger] out@[j], s, full.units, j),
        decreases rev@.len(),
    {
        let t = rev.pop().unwrap();
        out.push(t);
    }
    Ok(out)
}

/// Every scan unit spans a nonempty, in-bounds character range, later
/// units start no earlier than where earlier ones end, and no whitespace
/// unit is ever kept.
pub proof fn lemma_scan_units(s: Seq<char>, i: int)
    requires
        0 <= i <= s.len(),
    ensures
        forall|j: int|
            0 <= j < scan(s, i).units.len() ==> {
                let u = #[trigger] scan(s, i).units[j];
                &&& i <= u.start < u.end <= s.len()
                &&& !(u.kind is Whitespace)
            },
        forall|j: int|
            1 <= j < scan(s, i).units.len() ==> #[trigger] scan(s, i).units[j].start >= scan(
                s,
                i,
            ).units[j - 1].end,
    decreases s.len() - i,
{
    lemma_rule_match(s, i);
    if i < s.len() {
        match rule_match(s, i) {
            None => {}
            Some(u) => {
                lemma_scan_units(s, u.end);
                if u.kind is Whitespace {
                    assert(scan(s, i).units == scan(s, u.end).units);
                } else {
                    assert(scan(s, i).units == seq![u] + scan(s, u.end).units);
                    assert(scan(s, i).units[0] == u);
                    assert(forall|j: int|
                        1 <= j < scan(s, i).units.len() ==> #[trigger] scan(s, i).units[j] == scan(
                            s,
                            u.end,
                        ).units[j - 1]);
                }
            }
        }
    }
}

/// In an input without spaces or tabs every unit is kept, so the units
/// tile the input exactly: the first starts at the scan's start and each
/// later one starts where the one before it ends.
pub proof fn lemma_scan_adjacent(s: Seq<char>, i: int)
    requires
        0 <= i <= s.len(),
        forall|k: int| 0 <= k < s.len() ==> !is_space(s[k]),
    ensures
        scan(s, i).units.len() > 0 ==> scan(s, i).units[0].start == i,
        forall|j: int|
            1 <= j < scan(s, i).units.len() ==> #[trigger] scan(s, i).units[j].start == scan(
                s,
                i,
            ).units[j - 1].end,
        forall|j: int|
            0 <= j < scan(s, i).units.len() ==> i <= (#[trigger] scan(s, i).units[j]).start < scan(
                s,
                i,
            ).units[j].end <= s.len(),
    decreases s.len() - i,
{
    lemma_rule_match(s, i);
    lemma_scan_units(s, i);
    if i < s.len() {
        match rule_match(s, i) {
            None => {}
            Some(u) => {
                lemma_scan_adjacent(s, u.end);
                assert(!(u.kind is Whitespace));
                assert(scan(s, i).units == seq![u] + scan(s, u.end).units);
                assert(scan(s, i).units[0] == u);
                assert(forall|j: int|
                    1 <= j < scan(s, i).units.len() ==> #[trigger] scan(s, i).units[j] == scan(
                        s,
                        u.end,
                    ).units[j - 1]);
            }
        }
    }
}

/// Round-trip positions, for an input without spaces or tabs: the position
/// recorded on each emitted token is the start position of that token's
/// own text, so the first token is recorded at line 1, column 1, and the
/// position recorded on each later token is reached from the previous
/// token's recorded position by advancing over exactly the previous
/// token's text.
///
/// Whitespace between tokens shifts the recorded positions (the corrective
/// pass hands each token the position stamped after the *previous kept*
/// token, which then lies at the start of the intervening whitespace), so
/// the law holds of the whitespace-free inputs.
pub proof fn lemma_round_trip_positions(s: Seq<char>)
    requires
        forall|k: int| 0 <= k < s.len() ==> !is_space(s[k]),
    ensures
        forall|j: int|
            0 <= j < scan(s, 0).units.len() ==> emitted_pos(s, scan(s, 0).units, j) == pos_at(
                s,
                (#[trigger] scan(s, 0).units[j]).start,
            ),
        scan(s, 0).units.len() > 0 ==> emitted_pos(s, scan(s, 0).units, 0) == start_pos(),
        forall|j: int|
            1 <= j < scan(s, 0).units.len() ==> #[trigger] emitted_pos(s, scan(s, 0).units, j)
                == advance_pos(
                emitted_pos(s, scan(s, 0).units, j - 1),
                s.subrange(scan(s, 0).units[j - 1].start, scan(s, 0).units[j - 1].end),
            ),
{
    lemma_scan_adjacent(s, 0);
    let units = scan(s, 0).units;
    assert forall|j: int| 0 <= j < units.len() implies emitted_pos(s, units, j) == pos_at(
        s,
        units[j].start,
    ) by {
        if j == 0 {
            assert(pos_at(s, units[0].start) == start_pos());
        } else {
            assert(units[j].start == units[j - 1].end);
        }
    }
    assert forall|j: int| 1 <= j < units.len() implies #[trigger] emitted_pos(s, units, j)
        == advance_pos(
        emitted_pos(s, units, j - 1),
        s.subrange(units[j - 1].start, units[j - 1].end),
    ) by {
        lemma_pos_at_split(s, units[j - 1].start, units[j - 1].end);
        assert(emitted_pos(s, units, j) == pos_at(s, units[j - 1].end));
        assert(emitted_pos(s, units, j - 1) == pos_at(s, units[j - 1].start));
    }
}

/// Whitespace elision: a run of spaces/tabs is invisible to the emitted
/// tokens. Scanning from the start of the run gives exactly the scan from
/// just past the run — the same kept units and the same stuck position —
/// and (by `lemma_scan_units`) no whitespace token is ever emitted, so
/// whitespace between tokens can only move recorded positions, never
/// change what is lexed.
pub proof fn lemma_whitespace_elided(s: Seq<char>, i: int)
    requires
        0 <= i < s.len(),
        is_space(s[i]),
    ensures
        scan(s, i) == scan(s, space_run_end(s, i)),
{
    lemma_rule_match(s, i);
    lemma_space_run(s, i);
    assert(word_ctrl()[0] == 'c' && word_shift()[0] == 's' && word_alt()[0] == 'a');
    if match_at(s, i, word_ctrl()) {
        assert(s[i + 0] == 'c');
    }
    if match_at(s, i, word_shift()) {
        assert(s[i + 0] == 's');
    }
    if match_at(s, i, word_alt()) {
        assert(s[i + 0] == 'a');
    }
    assert(rule_match(s, i) == Some(
        ScanUnit { kind: TokenKindView::Whitespace, start: i, end: space_run_end(s, i) },
    ));
    let rest = scan(s, space_run_end(s, i));
    assert(scan(s, i).units == rest.units);
    assert(scan(s, i).stuck == rest.stuck);
}

/// If the scan of the whole remaining input never gets stuck, every
/// remaining character is one some rule can consume.
pub proof fn lemma_scan_all_allowed(s: Seq<char>, i: int)
    requires
        0 <= i <= s.len(),
        scan(s, i).stuck is None,
    ensures
        forall|k: int| i <= k < s.len() ==> is_allowed_char(s[k]),
    decreases s.len() - i,
{
    lemma_rule_match(s, i);
    if i < s.len() {
        match rule_match(s, i) {
            None => {
                assert(scan(s, i).stuck == Some(i));
            }
            Some(u) => {
                lemma_scan_all_allowed(s, u.end);
            }
        }
    }
}

/// Lexical rejection: an input containing any character outside letters,
/// space, tab, newline and `+` cannot be lexed; the scan gets stuck at or
/// before that character, so `lex` reports `RemainingInput`.
pub proof fn lemma_lexical_rejection(s: Seq<char>, bad: int)
    requires
        0 <= bad < s.len(),
        !is_allowed_char(s[bad]),
    ensures
        scan(s, 0).stuck is Some,
{
    if scan(s, 0).stuck is None {
        lemma_scan_all_allowed(s, 0);
    }
}

} // verus!

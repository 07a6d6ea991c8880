//! The scanner as mathematics: what one scanning step does to a source text
//! and a cursor, and the stream of tokens that repeated steps give.
//!
//! A step first skips whitespace, but never past the end of a line: it
//! stops behind the first newline that it consumes. The character that
//! stands there decides the lexeme, whatever it is: whitespace right behind
//! such a newline begins no lexeme and is an illegal character. A step that
//! fails halts the scanner: every later step reports the end of the input.
//!
//! Offsets and columns count characters. Lines are counted by the newlines
//! that the whitespace skip consumes, and by no others.

use vstd::prelude::*;
use crate::chars::{
    comment_start, compound_symbol, letter, number_char, number_start, plain_symbol, whitespace,
    word_char,
};
use crate::error::{LexErrorKind, LexErrorView};
use crate::number::decimal_literal;
use crate::token::{word_token, TokenView};

verus! {

/// The state of a scanner over a source text.
pub struct Cursor {
    /// The offset of the next character to read, counted in characters.
    pub pos: nat,
    /// The index of the current line; the first line has index zero.
    pub line: nat,
    /// The offset of the next character within the current line.
    pub column: nat,
    /// Whether a step has failed.
    pub halted: bool,
}

/// What one scanning step gives: a token or a diagnostic, and the cursor
/// afterwards.
pub struct Step {
    pub outcome: Result<TokenView, LexErrorView>,
    pub cursor: Cursor,
}

/// The cursor before the first step.
pub open spec fn start() -> Cursor {
    Cursor { pos: 0, line: 0, column: 0, halted: false }
}

/// Where the whitespace skip that begins at `pos` ends: behind the first
/// newline if only whitespace stands before it, and otherwise at the first
/// character that is no whitespace, or at the end of the text.
pub open spec fn skip_end(s: Seq<char>, pos: int) -> int
    decreases s.len() - pos,
{
    if pos < 0 || pos >= s.len() {
        pos
    } else if s[pos] == '\n' {
        pos + 1
    } else if whitespace(s[pos]) {
        skip_end(s, pos + 1)
    } else {
        pos
    }
}

/// Whether the whitespace skip that begins at `pos` consumes a newline.
pub open spec fn skip_breaks_line(s: Seq<char>, pos: int) -> bool {
    pos < skip_end(s, pos) && s[skip_end(s, pos) - 1] == '\n'
}

/// Where a comment ends whose text continues at `i`: behind the next
/// newline, or at the end of the text.
pub open spec fn comment_end(s: Seq<char>, i: int) -> int
    decreases s.len() - i,
{
    if i < 0 || i >= s.len() {
        i
    } else if s[i] == '\n' {
        i + 1
    } else {
        comment_end(s, i + 1)
    }
}

/// Where the longest run of numeric-literal characters that begins at `i`
/// ends.
pub open spec fn number_end(s: Seq<char>, i: int) -> int
    decreases s.len() - i,
{
    if 0 <= i < s.len() && number_char(s[i]) {
        number_end(s, i + 1)
    } else {
        i
    }
}

/// Where the longest run of word characters that begins at `i` ends.
pub open spec fn word_end(s: Seq<char>, i: int) -> int
    decreases s.len() - i,
{
    if 0 <= i < s.len() && word_char(s[i]) {
        word_end(s, i + 1)
    } else {
        i
    }
}

/// Where the lexeme ends that begins with the character at `start`.
///
/// A symbol that can join with `=` takes a directly following `=` along. A
/// comment runs to the end of its line, newline included. A numeric literal
/// takes every following point and hexadecimal digit, and a word every
/// following letter, digit and underscore. Any other character stands
/// alone.
pub open spec fn lexeme_end(s: Seq<char>, start: int) -> int {
    let c = s[start];
    if compound_symbol(c) {
        if start + 1 < s.len() && s[start + 1] == '=' {
            start + 2
        } else {
            start + 1
        }
    } else if comment_start(c) {
        comment_end(s, start + 1)
    } else if number_start(c) {
        number_end(s, start + 1)
    } else if letter(c) {
        word_end(s, start + 1)
    } else {
        start + 1
    }
}

/// The token that a lexeme is, by its first character, or why it is none.
pub open spec fn classify(text: Seq<char>) -> Result<TokenView, LexErrorKind> {
    let c = text[0];
    if plain_symbol(c) || compound_symbol(c) {
        Ok(TokenView::OperatorOrSym(text))
    } else if comment_start(c) {
        Ok(TokenView::Comment)
    } else if number_start(c) {
        if decimal_literal(text) {
            Ok(TokenView::Number(text))
        } else {
            Err(LexErrorKind::NumberFormatError)
        }
    } else if letter(c) {
        Ok(word_token(text))
    } else {
        Err(LexErrorKind::IllegalCharacter)
    }
}

/// Where the line ends that holds the offset `from`: at the next newline, or
/// at the end of the text.
pub open spec fn line_end(s: Seq<char>, from: int) -> int
    decreases s.len() - from,
{
    if 0 <= from < s.len() && s[from] != '\n' {
        line_end(s, from + 1)
    } else {
        from
    }
}

/// Where the line of index `k` starts: the first at zero, every other one
/// behind the newline that ends the line before it.
pub open spec fn line_start(s: Seq<char>, k: nat) -> int
    decreases k,
{
    if k == 0 {
        0
    } else {
        line_end(s, line_start(s, (k - 1) as nat)) + 1
    }
}

/// The text of the line of index `k`, without its newline.
pub open spec fn line_text(s: Seq<char>, k: nat) -> Seq<char> {
    s.subrange(line_start(s, k), line_end(s, line_start(s, k)))
}

/// One scanning step on the text `s` from the cursor `c`.
///
/// Skipped whitespace advances the column; a skipped newline instead sets
/// the column to zero and moves to the next line. Behind the skip, the end
/// of the text gives the end-of-input token. Otherwise the lexeme there is
/// consumed, each of its characters advancing the column, and classified. A
/// lexeme that is no token gives a diagnostic with the columns of the
/// lexeme and the text of the current line, and halts the scanner. A comment
/// moves neither to the next line nor back to column zero, although it
/// consumes a newline.
pub open spec fn scan(s: Seq<char>, c: Cursor) -> Step {
    let begin = skip_end(s, c.pos as int);
    let line = if skip_breaks_line(s, c.pos as int) {
        c.line + 1
    } else {
        c.line
    };
    let start_column = if skip_breaks_line(s, c.pos as int) {
        0
    } else {
        c.column + begin - c.pos
    };
    if c.halted {
        Step { outcome: Ok(TokenView::EOF), cursor: c }
    } else if begin >= s.len() {
        Step {
            outcome: Ok(TokenView::EOF),
            cursor: Cursor {
                pos: begin as nat,
                line: line as nat,
                column: start_column as nat,
                halted: false,
            },
        }
    } else {
        let end = lexeme_end(s, begin);
        let end_column = start_column + end - begin;
        match classify(s.subrange(begin, end)) {
            Ok(token) => Step {
                outcome: Ok(token),
                cursor: Cursor {
                    pos: end as nat,
                    line: line as nat,
                    column: end_column as nat,
                    halted: false,
                },
            },
            Err(kind) => Step {
                outcome: Err(
                    LexErrorView {
                        error: kind.text(),
                        index: end_column as nat,
                        start_index: start_column as nat,
                        err_line: line_text(s, line as nat),
                    },
                ),
                cursor: Cursor {
                    pos: end as nat,
                    line: line as nat,
                    column: end_column as nat,
                    halted: true,
                },
            },
        }
    }
}

/// A cursor that a scanner over `s` can be at: within the text, on a line
/// that starts at or before the cursor, and with a column that counts no
/// more characters than were read.
pub open spec fn valid(s: Seq<char>, c: Cursor) -> bool {
    &&& c.pos <= s.len()
    &&& c.column <= c.pos
    &&& line_start(s, c.line) <= c.pos
}

/// The whitespace skip ends between its start and the end of the text, and
/// everything it passes is whitespace, with no newline before its last
/// character.
pub proof fn lemma_skip_end(s: Seq<char>, pos: int)
    requires
        0 <= pos <= s.len(),
    ensures
        pos <= skip_end(s, pos) <= s.len(),
        forall|i: int| pos <= i < skip_end(s, pos) ==> whitespace(#[trigger] s[i]),
        forall|i: int| pos <= i < skip_end(s, pos) - 1 ==> #[trigger] s[i] != '\n',
        skip_end(s, pos) < s.len() && !skip_breaks_line(s, pos) ==> !whitespace(
            s[skip_end(s, pos)],
        ),
    decreases s.len() - pos,
{
    if pos < s.len() && s[pos] != '\n' && whitespace(s[pos]) {
        lemma_skip_end(s, pos + 1);
    }
}

/// A comment ends behind where it continues and within the text.
pub proof fn lemma_comment_end(s: Seq<char>, i: int)
    requires
        0 <= i <= s.len(),
    ensures
        i <= comment_end(s, i) <= s.len(),
        forall|j: int| i <= j < comment_end(s, i) - 1 ==> #[trigger] s[j] != '\n',
        comment_end(s, i) < s.len() ==> i < comment_end(s, i) && s[comment_end(s, i) - 1] == '\n',
    decreases s.len() - i,
{
    if i < s.len() && s[i] != '\n' {
        lemma_comment_end(s, i + 1);
    }
}

/// A run of numeric-literal characters is all of such characters, and ends
/// at the first other one.
pub proof fn lemma_number_end(s: Seq<char>, i: int)
    requires
        0 <= i <= s.len(),
    ensures
        i <= number_end(s, i) <= s.len(),
        forall|j: int| i <= j < number_end(s, i) ==> number_char(#[trigger] s[j]),
        number_end(s, i) < s.len() ==> !number_char(s[number_end(s, i)]),
    decreases s.len() - i,
{
    if i < s.len() && number_char(s[i]) {
        lemma_number_end(s, i + 1);
    }
}

/// A run of word characters is all of such characters, and ends at the
/// first other one.
pub proof fn lemma_word_end(s: Seq<char>, i: int)
    requires
        0 <= i <= s.len(),
    ensures
        i <= word_end(s, i) <= s.len(),
        forall|j: int| i <= j < word_end(s, i) ==> word_char(#[trigger] s[j]),
        word_end(s, i) < s.len() ==> !word_char(s[word_end(s, i)]),
    decreases s.len() - i,
{
    if i < s.len() && word_char(s[i]) {
        lemma_word_end(s, i + 1);
    }
}

/// A lexeme is not empty and ends within the text.
pub proof fn lemma_lexeme_end(s: Seq<char>, start: int)
    requires
        0 <= start < s.len(),
    ensures
        start < lexeme_end(s, start) <= s.len(),
{
    lemma_comment_end(s, start + 1);
    lemma_number_end(s, start + 1);
    lemma_word_end(s, start + 1);
}

/// The line that holds an offset ends at or behind the offset, within the
/// text, at a newline or at the end of the text, and holds no newline from
/// the offset on.
pub proof fn lemma_line_end(s: Seq<char>, from: int)
    requires
        0 <= from <= s.len(),
    ensures
        from <= line_end(s, from) <= s.len(),
        forall|i: int| from <= i < line_end(s, from) ==> #[trigger] s[i] != '\n',
        line_end(s, from) < s.len() ==> s[line_end(s, from)] == '\n',
    decreases s.len() - from,
{
    if from < s.len() && s[from] != '\n' {
        lemma_line_end(s, from + 1);
    }
}

/// A step that gives a token other than the end of the input moves the
/// cursor forward, by the whole lexeme. A step never moves it back nor out of
/// the text.
pub proof fn lemma_scan_advances(s: Seq<char>, c: Cursor)
    requires
        c.pos <= s.len(),
    ensures
        c.pos <= scan(s, c).cursor.pos <= s.len(),
        scan(s, c).outcome matches Ok(token) && token != TokenView::EOF ==> c.pos < scan(
            s,
            c,
        ).cursor.pos,
{
    lemma_skip_end(s, c.pos as int);
    if skip_end(s, c.pos as int) < s.len() {
        lemma_lexeme_end(s, skip_end(s, c.pos as int));
    }
}

/// A line starts at an offset that is not negative.
pub proof fn lemma_line_start(s: Seq<char>, k: nat)
    ensures
        0 <= line_start(s, k),
    decreases k,
{
    if k > 0 {
        let before = line_start(s, (k - 1) as nat);
        lemma_line_start(s, (k - 1) as nat);
        if before <= s.len() {
            lemma_line_end(s, before);
        }
    }
}

/// **Steps keep the cursor valid.** From a valid cursor a step leads to a
/// valid cursor: the scanner never leaves the text, and its line is one
/// that the text has.
pub proof fn lemma_scan_valid(s: Seq<char>, c: Cursor)
    requires
        valid(s, c),
    ensures
        valid(s, scan(s, c).cursor),
{
    let begin = skip_end(s, c.pos as int);
    lemma_skip_end(s, c.pos as int);
    lemma_line_start(s, c.line);
    if begin < s.len() {
        lemma_lexeme_end(s, begin);
    }
    if skip_breaks_line(s, c.pos as int) {
        lemma_line_end(s, line_start(s, c.line));
        assert(line_end(s, line_start(s, c.line)) <= begin - 1);
        assert(line_start(s, c.line + 1) == line_end(s, line_start(s, c.line)) + 1);
    }
}

/// What scanning to the end gives: the tokens in order, the diagnostic if a
/// step failed, and the cursor at which the scanner comes to rest.
pub struct Run {
    pub tokens: Seq<TokenView>,
    pub failure: Option<LexErrorView>,
    pub cursor: Cursor,
}

/// Repeated steps on `s` from the cursor `c`, up to the end of the input or
/// the first failure. The end-of-input token is not among the tokens.
pub open spec fn run(s: Seq<char>, c: Cursor) -> Run
    decreases s.len() - c.pos,
    via run_decreases
{
    let step = scan(s, c);
    match step.outcome {
        Err(e) => Run { tokens: Seq::empty(), failure: Some(e), cursor: step.cursor },
        Ok(TokenView::EOF) => Run { tokens: Seq::empty(), failure: None, cursor: step.cursor },
        Ok(token) => {
            let rest = run(s, step.cursor);
            Run { tokens: seq![token] + rest.tokens, failure: rest.failure, cursor: rest.cursor }
        },
    }
}

#[via_fn]
proof fn run_decreases(s: Seq<char>, c: Cursor) {
    if c.pos <= s.len() {
        lemma_scan_advances(s, c);
    }
}

} // verus!

//! The scanner: a cursor over a source text that hands out one token per
//! call.

use vstd::prelude::*;
use vstd::string::*;
use crate::chars::{
    is_compound_symbol, is_letter, is_number_char, is_number_start, is_plain_symbol,
    is_whitespace, is_word_char,
};
use crate::error::{LexErrorKind, LexErrorView};
use crate::number::is_decimal_literal;
use crate::scan::{
    comment_end, lemma_line_end, lemma_scan_advances, line_end, line_start, line_text,
    number_end, run, scan, skip_end, start, valid, word_end, Cursor,
};
use crate::text::span_text;
use crate::token::{views, word, TokenView};

pub use crate::error::LexError;
pub use crate::token::Token;

verus! {

/// A scanner over one source text.
///
/// It borrows the source text, which it only reads, and owns its cursor, a
/// copy of the text's characters for reading by offset, and a table of
/// where the lines start. Offsets and columns count characters, not bytes.
pub struct Lexer<'a> {
    /// The column of the next character within the current line.
    per_line_pos: usize,
    /// The offset of the next character.
    pos: usize,
    /// The source text.
    input: &'a str,
    /// The characters of the source text, for reading by offset.
    chars: Vec<char>,
    /// The index of the current line.
    line: usize,
    /// The offset at which each line of the source starts.
    lines: Vec<usize>,
    /// Whether a call has failed.
    halted: bool,
}

/// What one call of [`Lexer::lex`] returns.
pub type LexResult<'a> = Result<Token, LexError<'a>>;

/// `table` lists where the lines of `s` start, one entry for each line.
spec fn line_table(s: Seq<char>, table: Seq<usize>) -> bool {
    &&& table.len() >= 1
    &&& forall|k: int|
        0 <= k < table.len() ==> #[trigger] table[k] == line_start(s, k as nat) && table[k]
            <= s.len()
    &&& line_end(s, table[table.len() - 1] as int) == s.len()
}

/// A line ends at the first newline from its start on, or at the end of the
/// text where no newline follows.
proof fn lemma_line_end_at(s: Seq<char>, from: int, end: int)
    requires
        0 <= from <= end <= s.len(),
        forall|i: int| from <= i < end ==> #[trigger] s[i] != '\n',
        end < s.len() ==> s[end] == '\n',
    ensures
        line_end(s, from) == end,
    decreases end - from,
{
    if from < end {
        lemma_line_end_at(s, from + 1, end);
    }
}

/// The characters of `src`, in order.
fn characters(src: &str) -> (chars: Vec<char>)
    ensures
        chars@ == src@,
{
    let mut chars: Vec<char> = Vec::new();
    for c in it: src.chars()
        invariant
            it.seq() == src@,
            chars@ == it.seq().subrange(0, it.index() as int),
    {
        chars.push(c);
    }
    chars
}

/// Where the lines of `chars` start.
fn line_starts(chars: &Vec<char>) -> (table: Vec<usize>)
    ensures
        line_table(chars@, table@),
{
    let mut table: Vec<usize> = Vec::new();
    table.push(0);
    let mut i: usize = 0;
    while i < chars.len()
        invariant
            i <= chars.len(),
            table.len() >= 1,
            forall|k: int|
                0 <= k < table.len() ==> #[trigger] table[k] == line_start(chars@, k as nat)
                    && table[k] <= i,
            forall|j: int| table[table.len() - 1] <= j < i ==> #[trigger] chars@[j] != '\n',
        decreases chars.len() - i,
    {
        if chars[i] == '\n' {
            proof {
                lemma_line_end_at(chars@, table[table.len() - 1] as int, i as int);
            }
            table.push(i + 1);
        }
        i += 1;
    }
    proof {
        lemma_line_end_at(chars@, table[table.len() - 1] as int, chars.len() as int);
    }
    table
}

/// A newline at or behind the start of a line that is listed in the table
/// ends that line, so the table lists the line behind it too, and that line
/// starts no later than behind the newline.
proof fn lemma_next_line(s: Seq<char>, table: Seq<usize>, line: int, i: int)
    requires
        line_table(s, table),
        0 <= line < table.len(),
        table[line] <= i < s.len(),
        s[i] == '\n',
    ensures
        line + 1 < table.len(),
        table[line + 1] <= i + 1,
{
    lemma_line_end(s, table[line] as int);
    assert(line_end(s, table[line] as int) <= i);
    assert(table[line] == line_start(s, line as nat));
    if line + 1 < table.len() {
        assert(table[line + 1] == line_start(s, (line + 1) as nat));
    }
}

/// Where the whitespace skip that begins at `from` ends.
fn find_skip_end(chars: &Vec<char>, from: usize) -> (end: usize)
    requires
        from <= chars.len(),
    ensures
        end == skip_end(chars@, from as int),
        from <= end <= chars.len(),
{
    let mut pos: usize = from;
    loop
        invariant_except_break
            from <= pos <= chars.len(),
            skip_end(chars@, from as int) == skip_end(chars@, pos as int),
        ensures
            from <= pos <= chars.len(),
            pos == skip_end(chars@, from as int),
        decreases chars.len() - pos,
    {
        if pos >= chars.len() {
            break ;
        }
        let c = chars[pos];
        if !is_whitespace(c) {
            break ;
        }
        if c == '\n' {
            pos += 1;
            break ;
        }
        pos += 1;
    }
    pos
}

/// Where a comment ends whose text continues at `from`.
fn find_comment_end(chars: &Vec<char>, from: usize) -> (end: usize)
    requires
        from <= chars.len(),
    ensures
        end == comment_end(chars@, from as int),
        from <= end <= chars.len(),
{
    let mut pos: usize = from;
    loop
        invariant_except_break
            from <= pos <= chars.len(),
            comment_end(chars@, from as int) == comment_end(chars@, pos as int),
        ensures
            from <= pos <= chars.len(),
            pos == comment_end(chars@, from as int),
        decreases chars.len() - pos,
    {
        if pos >= chars.len() {
            break ;
        }
        if chars[pos] == '\n' {
            pos += 1;
            break ;
        }
        pos += 1;
    }
    pos
}

/// Where the longest run of numeric-literal characters from `from` on ends.
fn find_number_end(chars: &Vec<char>, from: usize) -> (end: usize)
    requires
        from <= chars.len(),
    ensures
        end == number_end(chars@, from as int),
        from <= end <= chars.len(),
{
    let mut pos: usize = from;
    while pos < chars.len() && is_number_char(chars[pos])
        invariant
            from <= pos <= chars.len(),
            number_end(chars@, from as int) == number_end(chars@, pos as int),
        decreases chars.len() - pos,
    {
        pos += 1;
    }
    pos
}

/// Where the longest run of word characters from `from` on ends.
fn find_word_end(chars: &Vec<char>, from: usize) -> (end: usize)
    requires
        from <= chars.len(),
    ensures
        end == word_end(chars@, from as int),
        from <= end <= chars.len(),
{
    let mut pos: usize = from;
    while pos < chars.len() && is_word_char(chars[pos])
        invariant
            from <= pos <= chars.len(),
            word_end(chars@, from as int) == word_end(chars@, pos as int),
        decreases chars.len() - pos,
    {
        pos += 1;
    }
    pos
}

impl<'a> Lexer<'a> {
    /// The source text that the scanner reads.
    pub closed spec fn source(&self) -> Seq<char> {
        self.input@
    }

    /// Where the scanner stands.
    pub closed spec fn cursor(&self) -> Cursor {
        Cursor {
            pos: self.pos as nat,
            line: self.line as nat,
            column: self.per_line_pos as nat,
            halted: self.halted,
        }
    }

    /// The scanner's invariant: its tables describe its source, and its
    /// cursor is one that the source admits.
    pub closed spec fn wf(&self) -> bool {
        &&& self.chars@ == self.input@
        &&& line_table(self.input@, self.lines@)
        &&& self.line < self.lines.len()
        &&& self.lines[self.line as int] <= self.pos <= self.chars.len()
        &&& self.per_line_pos <= self.pos
    }

    /// The cursor of a well-formed scanner is valid for its source.
    pub proof fn lemma_cursor_valid(&self)
        requires
            self.wf(),
        ensures
            valid(self.source(), self.cursor()),
    {
    }

    /// A scanner at the start of `src`.
    pub fn new(src: &'a str) -> (lexer: Lexer<'a>)
        ensures
            lexer.wf(),
            lexer.source() == src@,
            lexer.cursor() == start(),
    {
        let chars = characters(src);
        let lines = line_starts(&chars);
        Lexer { per_line_pos: 0, pos: 0, input: src, chars, line: 0, lines, halted: false }
    }

    /// Consumes the next character if it is `expected`, and says whether it
    /// did. At the end of the input nothing is consumed.
    pub fn expect_next(&mut self, expected: char) -> (matched: bool)
        requires
            old(self).wf(),
        ensures
            final(self).wf(),
            final(self).source() == old(self).source(),
            matched == (old(self).cursor().pos < old(self).source().len() && old(
                self,
            ).source()[old(self).cursor().pos as int] == expected),
            matched ==> final(self).cursor() == (Cursor {
                pos: old(self).cursor().pos + 1,
                column: old(self).cursor().column + 1,
                ..old(self).cursor()
            }),
            !matched ==> final(self).cursor() == old(self).cursor(),
    {
        if self.pos < self.chars.len() && self.chars[self.pos] == expected {
            self.pos += 1;
            self.per_line_pos += 1;
            true
        } else {
            false
        }
    }

    /// The text of the current line, as a slice of the source.
    fn current_line(&self) -> (text: &'a str)
        requires
            self.wf(),
        ensures
            text@ == line_text(self.source(), self.cursor().line),
    {
        let from = self.lines[self.line];
        proof {
            lemma_line_end(self.input@, from as int);
            assert(from == line_start(self.input@, self.line as nat));
        }
        let to = if self.line + 1 < self.lines.len() {
            assert(self.lines[self.line + 1] == line_start(self.input@, (self.line + 1) as nat));
            self.lines[self.line + 1] - 1
        } else {
            self.chars.len()
        };
        self.input.substring_char(from, to)
    }

    /// Halts the scanner and makes the diagnostic for the lexeme that began
    /// at `start_column` and ends at the cursor.
    fn fail(&mut self, kind: LexErrorKind, start_column: usize) -> (e: LexError<'a>)
        requires
            old(self).wf(),
        ensures
            final(self).wf(),
            final(self).source() == old(self).source(),
            final(self).cursor() == (Cursor { halted: true, ..old(self).cursor() }),
            e@ == (LexErrorView {
                error: kind.text(),
                index: old(self).cursor().column,
                start_index: start_column as nat,
                err_line: line_text(old(self).source(), old(self).cursor().line),
            }),
    {
        self.halted = true;
        LexError::new_with_index(
            kind.message(),
            self.per_line_pos,
            start_column,
            self.current_line(),
        )
    }

    /// Moves the cursor forward to `end` within the current line's count.
    fn advance_to(&mut self, end: usize)
        requires
            old(self).wf(),
            old(self).cursor().pos <= end <= old(self).source().len(),
        ensures
            final(self).wf(),
            final(self).source() == old(self).source(),
            final(self).cursor() == (Cursor {
                pos: end as nat,
                column: (old(self).cursor().column + end - old(self).cursor().pos) as nat,
                ..old(self).cursor()
            }),
    {
        self.per_line_pos += end - self.pos;
        self.pos = end;
    }

    /// Scans one token: skips whitespace up to the end of the line at most,
    /// then consumes and classifies the lexeme at the cursor. See [`scan`],
    /// which this function computes.
    ///
    /// At the end of the input the token is [`Token::EOF`], on every call.
    /// A lexeme that is no token gives a diagnostic; after that the scanner
    /// is halted, and every later call gives [`Token::EOF`].
    pub fn lex(&mut self) -> (result: LexResult<'a>)
        requires
            old(self).wf(),
        ensures
            final(self).wf(),
            final(self).source() == old(self).source(),
            final(self).cursor() == scan(old(self).source(), old(self).cursor()).cursor,
            match result {
                Ok(token) => scan(old(self).source(), old(self).cursor()).outcome == Ok::<
                    TokenView,
                    LexErrorView,
                >(token@),
                Err(e) => scan(old(self).source(), old(self).cursor()).outcome == Err::<
                    TokenView,
                    LexErrorView,
                >(e@),
            },
            old(self).cursor().pos <= final(self).cursor().pos <= old(self).source().len(),
            result is Err <==> !old(self).cursor().halted && final(self).cursor().halted,
            old(self).cursor().halted || old(self).cursor().pos == old(self).source().len()
                ==> result is Ok && result->Ok_0@ == TokenView::EOF && final(self).cursor() == old(
                self,
            ).cursor(),
    {
        proof {
            lemma_scan_advances(self.source(), self.cursor());
        }
        if self.halted {
            return Ok(Token::EOF);
        }
        let begin = find_skip_end(&self.chars, self.pos);
        if begin > self.pos && self.chars[begin - 1] == '\n' {
            proof {
                lemma_next_line(self.input@, self.lines@, self.line as int, begin - 1);
            }
            self.line += 1;
            self.per_line_pos = 0;
            self.pos = begin;
        } else {
            self.advance_to(begin);
        }
        if begin >= self.chars.len() {
            return Ok(Token::EOF);
        }
        let start_column = self.per_line_pos;
        let first = self.chars[begin];
        self.advance_to(begin + 1);
        if is_plain_symbol(first) {
            Ok(Token::OperatorOrSym(span_text(&self.chars, begin, self.pos)))
        } else if is_compound_symbol(first) {
            self.expect_next('=');
            Ok(Token::OperatorOrSym(span_text(&self.chars, begin, self.pos)))
        } else if first == '#' {
            let end = find_comment_end(&self.chars, self.pos);
            self.advance_to(end);
            Ok(Token::Comment)
        } else if is_number_start(first) {
            let end = find_number_end(&self.chars, self.pos);
            self.advance_to(end);
            if is_decimal_literal(&self.chars, begin, end) {
                Ok(Token::Number(span_text(&self.chars, begin, end)))
            } else {
                Err(self.fail(LexErrorKind::NumberFormatError, start_column))
            }
        } else if is_letter(first) {
            let end = find_word_end(&self.chars, self.pos);
            self.advance_to(end);
            Ok(word(&self.chars, begin, end))
        } else {
            Err(self.fail(LexErrorKind::IllegalCharacter, start_column))
        }
    }

    /// The next token of the stream, or `None` where the stream ends: at the
    /// end of the input, and at a lexeme that is no token. The diagnostic of
    /// such a lexeme is dropped; [`Lexer::lex`] and [`Lexer::tokens`] hand it
    /// out.
    pub fn next(&mut self) -> (item: Option<Token>)
        requires
            old(self).wf(),
        ensures
            final(self).wf(),
            final(self).source() == old(self).source(),
            final(self).cursor() == scan(old(self).source(), old(self).cursor()).cursor,
            match item {
                Some(token) => token@ != TokenView::EOF && scan(
                    old(self).source(),
                    old(self).cursor(),
                ).outcome == Ok::<TokenView, LexErrorView>(token@),
                None => match scan(old(self).source(), old(self).cursor()).outcome {
                    Ok(token) => token == TokenView::EOF,
                    Err(_) => true,
                },
            },
    {
        match self.lex() {
            Err(_) => None,
            Ok(Token::EOF) => None,
            Ok(token) => Some(token),
        }
    }

    /// All tokens from the cursor on, in order, up to the end of the input or
    /// the first lexeme that is no token, and the diagnostic of that lexeme
    /// if there is one. See [`run`], which this function computes.
    pub fn tokens(&mut self) -> (result: (Vec<Token>, Option<LexError<'a>>))
        requires
            old(self).wf(),
        ensures
            final(self).wf(),
            final(self).source() == old(self).source(),
            final(self).cursor() == run(old(self).source(), old(self).cursor()).cursor,
            views(result.0@) == run(old(self).source(), old(self).cursor()).tokens,
            match result.1 {
                Some(e) => run(old(self).source(), old(self).cursor()).failure == Some(e@),
                None => run(old(self).source(), old(self).cursor()).failure is None,
            },
    {
        let mut tokens: Vec<Token> = Vec::new();
        let ghost all = run(self.source(), self.cursor());
        assert(views(tokens@) + all.tokens == all.tokens);
        loop
            invariant
                self.wf(),
                self.source() == old(self).source(),
                all == run(old(self).source(), old(self).cursor()),
                all.tokens == views(tokens@) + run(self.source(), self.cursor()).tokens,
                all.failure == run(self.source(), self.cursor()).failure,
                all.cursor == run(self.source(), self.cursor()).cursor,
            decreases self.source().len() - self.cursor().pos,
        {
            let ghost before = self.cursor();
            let ghost so_far = views(tokens@);
            proof {
                self.lemma_cursor_valid();
                lemma_scan_advances(self.source(), before);
            }
            match self.lex() {
                Err(e) => {
                    assert(views(tokens@) + Seq::<TokenView>::empty() == views(tokens@));
                    return (tokens, Some(e));
                },
                Ok(Token::EOF) => {
                    assert(views(tokens@) + Seq::<TokenView>::empty() == views(tokens@));
                    return (tokens, None);
                },
                Ok(token) => {
                    let ghost view = token@;
                    tokens.push(token);
                    assert(views(tokens@) == so_far + seq![view]);
                    assert(so_far + (seq![view] + run(self.source(), self.cursor()).tokens) == (
                    so_far + seq![view]) + run(self.source(), self.cursor()).tokens);
                },
            }
        }
    }
}

} // verus!

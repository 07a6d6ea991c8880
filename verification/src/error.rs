//! Diagnostics: what a failed scan reports, and how it is shown.

use vstd::prelude::*;
use vstd::string::*;
use crate::text::{push_repeated, repeat};

verus! {

/// Why a scan failed.
#[derive(Debug, Clone, Copy, PartialEq, Eq, Structural)]
pub enum LexErrorKind {
    /// The character at the cursor begins no lexeme.
    IllegalCharacter,
    /// A run of digits, points and hexadecimal letters is no numeric literal.
    NumberFormatError,
}

impl LexErrorKind {
    /// The message that a diagnostic of this kind carries.
    pub open spec fn text(self) -> Seq<char> {
        match self {
            LexErrorKind::IllegalCharacter => "illegal token in input stream"@,
            LexErrorKind::NumberFormatError => "Failed to convert source slice to float"@,
        }
    }

    /// The message that a diagnostic of this kind carries.
    pub fn message(self) -> (m: &'static str)
        ensures
            m@ == self.text(),
    {
        match self {
            LexErrorKind::IllegalCharacter => "illegal token in input stream",
            LexErrorKind::NumberFormatError => "Failed to convert source slice to float",
        }
    }
}

/// A failed scan: a message, the columns between which the faulty lexeme
/// lies, and the source line that the columns count in.
pub struct LexError<'a> {
    /// What went wrong.
    pub error: &'a str,
    /// The column at which scanning stopped, one past the faulty lexeme.
    pub index: usize,
    /// The column at which the faulty lexeme starts.
    pub start_index: usize,
    /// The text of the source line, without its newline.
    pub err_line: &'a str,
}

/// What a [`LexError`] holds, as mathematical values.
pub struct LexErrorView {
    pub error: Seq<char>,
    pub index: nat,
    pub start_index: nat,
    pub err_line: Seq<char>,
}

impl<'a> View for LexError<'a> {
    type V = LexErrorView;

    open spec fn view(&self) -> LexErrorView {
        LexErrorView {
            error: self.error@,
            index: self.index as nat,
            start_index: self.start_index as nat,
            err_line: self.err_line@,
        }
    }
}

/// The number of tildes that follow the caret: one for each column of the
/// lexeme after its first.
pub open spec fn tildes(start: nat, end: nat) -> nat {
    if end > start + 1 {
        (end - start - 1) as nat
    } else {
        0
    }
}

/// The line that marks the columns from `start` up to `end` of a source line
/// quoted behind a two-character prefix: blanks up to the start column, a
/// caret below it, and tildes below the columns that follow.
pub open spec fn underline(start: nat, end: nat) -> Seq<char> {
    repeat(' ', start + 2) + seq!['^'] + repeat('~', tildes(start, end))
}

/// A diagnostic as three lines of text: the message, the source line behind
/// the prefix `| `, and the underline.
pub open spec fn rendered(e: LexErrorView) -> Seq<char> {
    "error: "@ + e.error + "\n| "@ + e.err_line + "\n"@ + underline(e.start_index, e.index)
}

impl<'a> LexError<'a> {
    /// A diagnostic for `err_line` whose columns are both zero.
    pub fn new(error: &'a str, err_line: &'a str) -> (e: LexError<'a>)
        ensures
            e@ == (LexErrorView { error: error@, index: 0, start_index: 0, err_line: err_line@ }),
    {
        LexError { error, index: 0, start_index: 0, err_line }
    }

    /// A diagnostic for the columns from `start_index` up to `index` of
    /// `err_line`.
    pub fn new_with_index(
        error: &'a str,
        index: usize,
        start_index: usize,
        err_line: &'a str,
    ) -> (e: LexError<'a>)
        ensures
            e@ == (LexErrorView {
                error: error@,
                index: index as nat,
                start_index: start_index as nat,
                err_line: err_line@,
            }),
    {
        LexError { error, index, start_index, err_line }
    }

    /// The diagnostic as text for display: see [`rendered`].
    pub fn to_string(&self) -> (text: String)
        ensures
            text@ == rendered(self@),
    {
        let mut text = String::new();
        text.append("error: ");
        text.append(self.error);
        text.append("\n| ");
        text.append(self.err_line);
        text.append("\n");
        let ghost head = text@;
        text.push(' ');
        text.push(' ');
        push_repeated(&mut text, ' ', self.start_index);
        assert(text@ == head + repeat(' ', (self.start_index + 2) as nat));
        text.push('^');
        let extent: usize = if self.index > self.start_index {
            self.index - self.start_index - 1
        } else {
            0
        };
        push_repeated(&mut text, '~', extent);
        assert(text@ == head + underline(self@.start_index, self@.index));
        text
    }
}

} // verus!
